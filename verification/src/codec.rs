//! The wire codec: each request and response travels as one textual
//! value, a brace-delimited object with a discriminator and the
//! variant's fields, integers in decimal, strings quoted with
//! backslash escapes for quote and backslash and six-character
//! hexadecimal escapes for control characters (so an encoded message
//! never holds a raw newline). Encoding and decoding are verified
//! against the spec grammar below, and decoding an encoding is proved
//! to give back the encoded value.

use vstd::prelude::*;
use crate::models::{Answer, AnswerV, Question, QuestionV, Quiz, QuizV, Request, RequestV,
    Response, ResponseV};

verus! {

/// The decimal digit characters.
pub open spec fn is_digit(c: char) -> bool {
    48 <= c as u32 <= 57
}

/// The digit character for `d` (meaningful for `0 <= d <= 9`).
pub open spec fn digit_char(d: int) -> char {
    ((48 + d) as u8) as char
}

/// Decimal digits of a nonnegative integer, most significant first.
pub open spec fn enc_nat(n: int) -> Seq<char>
    decreases n,
{
    if n <= 9 {
        seq![digit_char(n)]
    } else {
        enc_nat(n / 10).push(digit_char(n % 10))
    }
}

/// Decimal encoding of an integer, with a leading minus sign when negative.
pub open spec fn enc_int(v: int) -> Seq<char> {
    if v < 0 {
        seq!['-'] + enc_nat(-v)
    } else {
        enc_nat(v)
    }
}

/// The value of a digit sequence read in base ten.
pub open spec fn digits_val(ds: Seq<char>) -> int
    decreases ds.len(),
{
    if ds.len() == 0 {
        0
    } else {
        digits_val(ds.drop_last()) * 10 + (ds.last() as u32 - 48)
    }
}

/// All characters of the sequence are decimal digits.
pub open spec fn all_digits(ds: Seq<char>) -> bool {
    forall|i: int| 0 <= i < ds.len() ==> is_digit(#[trigger] ds[i])
}

/// Ten to the `k`.
pub open spec fn pow10(k: nat) -> int
    decreases k,
{
    if k == 0 {
        1
    } else {
        10 * pow10((k - 1) as nat)
    }
}

/// The hexadecimal digit characters: digits, then lower-case letters.
pub open spec fn hex_char(d: int) -> char {
    if d < 10 {
        ((48 + d) as u8) as char
    } else {
        ((87 + d) as u8) as char
    }
}

/// A hexadecimal digit, either case.
pub open spec fn is_hex(c: char) -> bool {
    (48 <= c as u32 <= 57) || (97 <= c as u32 <= 102) || (65 <= c as u32 <= 70)
}

/// The value of a hexadecimal digit.
pub open spec fn hex_val(c: char) -> int {
    if 48 <= c as u32 <= 57 {
        c as u32 - 48
    } else if 97 <= c as u32 <= 102 {
        c as u32 - 87
    } else {
        c as u32 - 55
    }
}

/// One character of a quoted string: quote and backslash take a
/// backslash in front, a control character becomes a six-character
/// escape naming its code in hexadecimal, every other character
/// stands as itself.
pub open spec fn esc_char(c: char) -> Seq<char> {
    if c == '"' || c == '\\' {
        seq!['\\', c]
    } else if (c as u32) < 32 {
        seq!['\\', 'u', '0', '0', hex_char((c as u32) as int / 16), hex_char((c as u32) as int % 16)]
    } else {
        seq![c]
    }
}

/// The escaped body of a quoted string.
pub open spec fn esc(s: Seq<char>) -> Seq<char>
    decreases s.len(),
{
    if s.len() == 0 {
        Seq::empty()
    } else {
        esc_char(s[0]) + esc(s.skip(1))
    }
}

/// A quoted string: quote, escaped body, quote.
pub open spec fn enc_str(s: Seq<char>) -> Seq<char> {
    seq!['"'] + esc(s) + seq!['"']
}

/// The success message for an added quiz, naming its identifier.
pub open spec fn add_quiz_success_msg(id: int) -> Seq<char> {
    "Quiz added with ID: "@ + enc_int(id)
}

/// The success message for an added question, naming its identifier.
pub open spec fn add_question_success_msg(id: int) -> Seq<char> {
    "Question added with ID: "@ + enc_int(id)
}

/// The two boolean words.
pub open spec fn enc_bool(b: bool) -> Seq<char> {
    if b {
        "true"@
    } else {
        "false"@
    }
}

proof fn lemma_enc_nat_digits(n: int)
    requires
        n >= 0,
    ensures
        all_digits(enc_nat(n)),
        enc_nat(n).len() >= 1,
    decreases n,
{
    if n <= 9 {
        assert(enc_nat(n) =~= seq![digit_char(n)]);
        assert(is_digit(digit_char(n)));
    } else {
        lemma_enc_nat_digits(n / 10);
        assert(is_digit(digit_char(n % 10)));
        assert(forall|i: int| 0 <= i < enc_nat(n).len() ==> is_digit(#[trigger] enc_nat(n)[i]))
            by {
            assert(enc_nat(n) == enc_nat(n / 10).push(digit_char(n % 10)));
            assert forall|i: int| 0 <= i < enc_nat(n).len() implies is_digit(
                #[trigger] enc_nat(n)[i],
            ) by {
                if i < enc_nat(n / 10).len() {
                    assert(enc_nat(n)[i] == enc_nat(n / 10)[i]);
                } else {
                    assert(enc_nat(n)[i] == digit_char(n % 10));
                }
            }
        }
    }
}

proof fn lemma_digits_val_enc_nat(n: int)
    requires
        n >= 0,
    ensures
        digits_val(enc_nat(n)) == n,
    decreases n,
{
    if n <= 9 {
        let ds = enc_nat(n);
        assert(ds.len() == 1);
        assert(ds.drop_last() =~= Seq::<char>::empty());
        assert(digits_val(Seq::<char>::empty()) == 0);
        assert(ds.last() == digit_char(n));
        assert(digit_char(n) as u32 == 48 + n);
    } else {
        lemma_digits_val_enc_nat(n / 10);
        let ds = enc_nat(n);
        assert(ds == enc_nat(n / 10).push(digit_char(n % 10)));
        assert(ds.drop_last() =~= enc_nat(n / 10));
        assert(ds.last() == digit_char(n % 10));
        assert(digit_char(n % 10) as u32 == 48 + n % 10);
    }
}

proof fn lemma_enc_nat_len(n: int, k: nat)
    requires
        0 <= n < pow10(k),
        k >= 1,
    ensures
        enc_nat(n).len() <= k,
    decreases n,
{
    if n <= 9 {
    } else {
        assert(pow10(k) == 10 * pow10((k - 1) as nat));
        assert(n / 10 < pow10((k - 1) as nat));
        assert((k - 1) as nat >= 1) by {
            if k == 1 {
                assert(pow10(1) == 10);
                assert(false);
            }
        }
        lemma_enc_nat_len(n / 10, (k - 1) as nat);
    }
}

proof fn lemma_digits_val_bound(ds: Seq<char>)
    requires
        all_digits(ds),
    ensures
        0 <= digits_val(ds) < pow10(ds.len()),
    decreases ds.len(),
{
    if ds.len() == 0 {
    } else {
        assert(all_digits(ds.drop_last())) by {
            assert(forall|i: int| 0 <= i < ds.len() - 1 ==> ds.drop_last()[i] == ds[i]);
        }
        lemma_digits_val_bound(ds.drop_last());
        assert(is_digit(ds.last())) by {
            assert(ds.last() == ds[ds.len() - 1]);
        }
        assert(pow10(ds.len()) == 10 * pow10(ds.drop_last().len()));
    }
}

/// Appends one character. Relies on `String::push`.
#[verifier::external_body]
fn push_char(out: &mut String, c: char)
    ensures
        final(out)@ == old(out)@.push(c),
{
    out.push(c);
}

/// Builds a string from its characters. Relies on `Iterator::collect`
/// for `String`, which concatenates the characters in order.
#[verifier::external_body]
fn chars_to_string(v: &Vec<char>) -> (s: String)
    ensures
        s@ == v@,
{
    v.iter().collect()
}

/// Appends the decimal digits of `n`.
fn append_nat(out: &mut String, n: u64)
    ensures
        final(out)@ == old(out)@ + enc_nat(n as int),
    decreases n,
{
    if n <= 9 {
        let c: char = (48 + n as u8) as char;
        push_char(out, c);
        assert(final(out)@ =~= old(out)@ + enc_nat(n as int));
    } else {
        append_nat(out, n / 10);
        let c: char = (48 + (n % 10) as u8) as char;
        push_char(out, c);
        assert(final(out)@ =~= old(out)@ + enc_nat(n as int));
    }
}

/// Appends the decimal encoding of `v`.
pub(crate) fn append_int(out: &mut String, v: i32)
    ensures
        final(out)@ == old(out)@ + enc_int(v as int),
{
    if v < 0 {
        push_char(out, '-');
        let m: u64 = (-(v as i64)) as u64;
        append_nat(out, m);
        assert(final(out)@ =~= old(out)@ + enc_int(v as int));
    } else {
        append_nat(out, v as u64);
    }
}

proof fn lemma_esc_append(a: Seq<char>, b: Seq<char>)
    ensures
        esc(a + b) == esc(a) + esc(b),
    decreases a.len(),
{
    if a.len() == 0 {
        assert(a + b =~= b);
        assert(esc(a) + esc(b) =~= esc(b));
    } else {
        assert((a + b).skip(1) =~= a.skip(1) + b);
        lemma_esc_append(a.skip(1), b);
        assert((a + b)[0] == a[0]);
        assert(esc(a + b) =~= esc(a) + esc(b));
    }
}

/// The hexadecimal digit character for `d`.
fn hex_char_of(d: u32) -> (c: char)
    requires
        d < 16,
    ensures
        c == hex_char(d as int),
{
    if d < 10 {
        ((48 + d) as u8) as char
    } else {
        ((87 + d) as u8) as char
    }
}

/// Appends the quoted, escaped form of `s`.
fn append_str_enc(out: &mut String, s: &str)
    ensures
        final(out)@ == old(out)@ + enc_str(s@),
{
    push_char(out, '"');
    let n = s.unicode_len();
    let mut i: usize = 0;
    while i < n
        invariant
            n == s@.len(),
            0 <= i <= n,
            out@ == old(out)@ + seq!['"'] + esc(s@.take(i as int)),
        decreases n - i,
    {
        let c = s.get_char(i);
        proof {
            assert(s@.take(i as int + 1) =~= s@.take(i as int) + seq![s@[i as int]]);
            lemma_esc_append(s@.take(i as int), seq![s@[i as int]]);
            assert(esc(seq![s@[i as int]]) =~= esc_char(s@[i as int])) by {
                assert(seq![s@[i as int]].skip(1) =~= Seq::<char>::empty());
                assert(esc(Seq::<char>::empty()) == Seq::<char>::empty());
            }
        }
        if c == '"' || c == '\\' {
            push_char(out, '\\');
            push_char(out, c);
            assert(out@ =~= old(out)@ + seq!['"'] + esc(s@.take(i as int + 1)));
        } else if (c as u32) < 32 {
            let cu = c as u32;
            push_char(out, '\\');
            push_char(out, 'u');
            push_char(out, '0');
            push_char(out, '0');
            push_char(out, hex_char_of(cu / 16));
            push_char(out, hex_char_of(cu % 16));
            assert(out@ =~= old(out)@ + seq!['"'] + esc(s@.take(i as int + 1)));
        } else {
            push_char(out, c);
            assert(out@ =~= old(out)@ + seq!['"'] + esc(s@.take(i as int + 1)));
        }
        i = i + 1;
    }
    push_char(out, '"');
    assert(s@.take(n as int) =~= s@);
    assert(final(out)@ =~= old(out)@ + enc_str(s@));
}

/// An answer as it stands in a request: text and flag only; the row
/// identifiers are not carried, a decoded answer holds zero for both.
pub open spec fn answer_input_wf(a: AnswerV) -> bool {
    a.id == 0 && a.question_id == 0
}

/// The integer range a wire integer may take.
pub open spec fn i32_range(v: int) -> bool {
    -2147483648 <= v <= 2147483647
}

/// A request value the wire format can carry faithfully.
pub open spec fn request_wf(r: RequestV) -> bool {
    match r {
        RequestV::GetQuizzes => true,
        RequestV::GetQuestionsForQuiz { quiz_id } => i32_range(quiz_id),
        RequestV::AddQuiz { name } => true,
        RequestV::AddQuestion { quiz_id, text } => i32_range(quiz_id),
        RequestV::AddAnswers { question_id, answers } => i32_range(question_id) && forall|i: int|
            0 <= i < answers.len() ==> answer_input_wf(#[trigger] answers[i]),
    }
}

/// A response value the wire format can carry faithfully.
pub open spec fn response_wf(r: ResponseV) -> bool {
    match r {
        ResponseV::Quizzes(l) => forall|i: int|
            0 <= i < l.len() ==> i32_range(#[trigger] l[i].id),
        ResponseV::Questions(l) => forall|i: int|
            0 <= i < l.len() ==> i32_range(#[trigger] l[i].id) && i32_range(l[i].quiz_id),
        ResponseV::Success(m) => true,
        ResponseV::Error(m) => true,
    }
}

/// Encoding of one answer inside a request.
pub open spec fn enc_answer(a: AnswerV) -> Seq<char> {
    "{\"text\":"@ + enc_str(a.text) + ",\"is_correct\":"@ + enc_bool(a.is_correct) + "}"@
}

/// Comma-separated encodings of a list of answers.
pub open spec fn enc_answers(l: Seq<AnswerV>) -> Seq<char>
    decreases l.len(),
{
    if l.len() == 0 {
        Seq::empty()
    } else if l.len() == 1 {
        enc_answer(l[0])
    } else {
        enc_answer(l[0]) + seq![','] + enc_answers(l.skip(1))
    }
}

/// Encoding of a request: an object with the action tag first, the
/// variant's fields after it.
pub open spec fn enc_req(r: RequestV) -> Seq<char> {
    match r {
        RequestV::GetQuizzes => "{\"action\":\"GetQuizzes\"}"@,
        RequestV::GetQuestionsForQuiz { quiz_id } => "{\"action\":\"GetQuestionsForQuiz\",\"quiz_id\":"@
            + enc_int(quiz_id) + "}"@,
        RequestV::AddQuiz { name } => "{\"action\":\"AddQuiz\",\"name\":"@ + enc_str(name) + "}"@,
        RequestV::AddQuestion { quiz_id, text } => "{\"action\":\"AddQuestion\",\"quiz_id\":"@
            + enc_int(quiz_id) + ",\"text\":"@ + enc_str(text) + "}"@,
        RequestV::AddAnswers { question_id, answers } => "{\"action\":\"AddAnswers\",\"question_id\":"@
            + enc_int(question_id) + ",\"answers\":["@ + enc_answers(answers) + "]}"@,
    }
}

/// Encoding of one quiz row in a response.
pub open spec fn enc_quiz(q: QuizV) -> Seq<char> {
    "{\"id\":"@ + enc_int(q.id) + ",\"name\":"@ + enc_str(q.name) + "}"@
}

/// Comma-separated encodings of a list of quizzes.
pub open spec fn enc_quizzes(l: Seq<QuizV>) -> Seq<char>
    decreases l.len(),
{
    if l.len() == 0 {
        Seq::empty()
    } else if l.len() == 1 {
        enc_quiz(l[0])
    } else {
        enc_quiz(l[0]) + seq![','] + enc_quizzes(l.skip(1))
    }
}

/// Encoding of one question row in a response.
pub open spec fn enc_question(q: QuestionV) -> Seq<char> {
    "{\"id\":"@ + enc_int(q.id) + ",\"quiz_id\":"@ + enc_int(q.quiz_id) + ",\"text\":"@
        + enc_str(q.text) + "}"@
}

/// Comma-separated encodings of a list of questions.
pub open spec fn enc_questions(l: Seq<QuestionV>) -> Seq<char>
    decreases l.len(),
{
    if l.len() == 0 {
        Seq::empty()
    } else if l.len() == 1 {
        enc_question(l[0])
    } else {
        enc_question(l[0]) + seq![','] + enc_questions(l.skip(1))
    }
}

/// Encoding of a response: an object whose single key is the variant
/// name and whose value is the payload.
pub open spec fn enc_resp(r: ResponseV) -> Seq<char> {
    match r {
        ResponseV::Quizzes(l) => "{\"Quizzes\":["@ + enc_quizzes(l) + "]}"@,
        ResponseV::Questions(l) => "{\"Questions\":["@ + enc_questions(l) + "]}"@,
        ResponseV::Success(m) => "{\"Success\":"@ + enc_str(m) + "}"@,
        ResponseV::Error(m) => "{\"Error\":"@ + enc_str(m) + "}"@,
    }
}

/// Consumes the literal `l` from the front of `s`.
pub open spec fn p_lit(s: Seq<char>, l: Seq<char>) -> Option<Seq<char>> {
    if l.len() <= s.len() && s.take(l.len() as int) == l {
        Some(s.skip(l.len() as int))
    } else {
        None
    }
}

/// Consumes the body of a quoted string up to and including the
/// closing quote, undoing the escapes.
pub open spec fn p_str_body(s: Seq<char>) -> Option<(Seq<char>, Seq<char>)>
    decreases s.len(),
{
    if s.len() == 0 {
        None
    } else if s[0] == '"' {
        Some((Seq::empty(), s.skip(1)))
    } else if s[0] == '\\' {
        if s.len() >= 2 && (s[1] == '"' || s[1] == '\\') {
            match p_str_body(s.skip(2)) {
                Some(p) => Some((seq![s[1]] + p.0, p.1)),
                None => None,
            }
        } else if s.len() >= 6 && s[1] == 'u' && s[2] == '0' && s[3] == '0' && is_hex(s[4])
            && is_hex(s[5]) {
            match p_str_body(s.skip(6)) {
                Some(p) => Some(
                    (seq![((hex_val(s[4]) * 16 + hex_val(s[5])) as u32) as char] + p.0, p.1),
                ),
                None => None,
            }
        } else {
            None
        }
    } else {
        match p_str_body(s.skip(1)) {
            Some(p) => Some((seq![s[0]] + p.0, p.1)),
            None => None,
        }
    }
}

/// Consumes a quoted string.
pub open spec fn p_str(s: Seq<char>) -> Option<(Seq<char>, Seq<char>)> {
    if s.len() > 0 && s[0] == '"' {
        p_str_body(s.skip(1))
    } else {
        None
    }
}

/// Consumes the longest digit prefix.
pub open spec fn p_digits(s: Seq<char>) -> (Seq<char>, Seq<char>)
    decreases s.len(),
{
    if s.len() > 0 && is_digit(s[0]) {
        let p = p_digits(s.skip(1));
        (seq![s[0]] + p.0, p.1)
    } else {
        (Seq::empty(), s)
    }
}

/// Consumes a decimal integer that fits a 32-bit signed value.
pub open spec fn p_int(s: Seq<char>) -> Option<(int, Seq<char>)> {
    let neg = s.len() > 0 && s[0] == '-';
    let body = if neg { s.skip(1) } else { s };
    let p = p_digits(body);
    if p.0.len() == 0 || p.0.len() > 10 {
        None
    } else {
        let v = digits_val(p.0);
        if neg {
            if v <= 2147483648 { Some((-v, p.1)) } else { None }
        } else {
            if v <= 2147483647 { Some((v, p.1)) } else { None }
        }
    }
}

/// Consumes one of the two boolean words.
pub open spec fn p_bool(s: Seq<char>) -> Option<(bool, Seq<char>)> {
    match p_lit(s, "true"@) {
        Some(r) => Some((true, r)),
        None => match p_lit(s, "false"@) {
            Some(r) => Some((false, r)),
            None => None,
        },
    }
}

/// Consumes one answer object of a request.
pub open spec fn p_answer(s: Seq<char>) -> Option<(AnswerV, Seq<char>)> {
    match p_lit(s, "{\"text\":"@) {
        Some(s1) => match p_str(s1) {
            Some(pt) => match p_lit(pt.1, ",\"is_correct\":"@) {
                Some(s2) => match p_bool(s2) {
                    Some(pb) => match p_lit(pb.1, "}"@) {
                        Some(s3) => Some(
                            (AnswerV { id: 0, question_id: 0, text: pt.0, is_correct: pb.0 }, s3),
                        ),
                        None => None,
                    },
                    None => None,
                },
                None => None,
            },
            None => None,
        },
        None => None,
    }
}

/// Consumes one or more comma-separated answer objects.
pub open spec fn p_answer_items(s: Seq<char>) -> Option<(Seq<AnswerV>, Seq<char>)>
    decreases s.len(),
{
    match p_answer(s) {
        Some(pa) => if pa.1.len() > 0 && pa.1[0] == ',' {
            if pa.1.len() < s.len() {
                match p_answer_items(pa.1.skip(1)) {
                    Some(pl) => Some((seq![pa.0] + pl.0, pl.1)),
                    None => None,
                }
            } else {
                None
            }
        } else {
            Some((seq![pa.0], pa.1))
        },
        None => None,
    }
}

/// Consumes one quiz object of a response.
pub open spec fn p_quiz(s: Seq<char>) -> Option<(QuizV, Seq<char>)> {
    match p_lit(s, "{\"id\":"@) {
        Some(s1) => match p_int(s1) {
            Some(pi) => match p_lit(pi.1, ",\"name\":"@) {
                Some(s2) => match p_str(s2) {
                    Some(pn) => match p_lit(pn.1, "}"@) {
                        Some(s3) => Some((QuizV { id: pi.0, name: pn.0 }, s3)),
                        None => None,
                    },
                    None => None,
                },
                None => None,
            },
            None => None,
        },
        None => None,
    }
}

/// Consumes one or more comma-separated quiz objects.
pub open spec fn p_quiz_items(s: Seq<char>) -> Option<(Seq<QuizV>, Seq<char>)>
    decreases s.len(),
{
    match p_quiz(s) {
        Some(pa) => if pa.1.len() > 0 && pa.1[0] == ',' {
            if pa.1.len() < s.len() {
                match p_quiz_items(pa.1.skip(1)) {
                    Some(pl) => Some((seq![pa.0] + pl.0, pl.1)),
                    None => None,
                }
            } else {
                None
            }
        } else {
            Some((seq![pa.0], pa.1))
        },
        None => None,
    }
}

/// Consumes one question object of a response.
pub open spec fn p_question(s: Seq<char>) -> Option<(QuestionV, Seq<char>)> {
    match p_lit(s, "{\"id\":"@) {
        Some(s1) => match p_int(s1) {
            Some(pi) => match p_lit(pi.1, ",\"quiz_id\":"@) {
                Some(s2) => match p_int(s2) {
                    Some(pq) => match p_lit(pq.1, ",\"text\":"@) {
                        Some(s3) => match p_str(s3) {
                            Some(pt) => match p_lit(pt.1, "}"@) {
                                Some(s4) => Some(
                                    (QuestionV { id: pi.0, quiz_id: pq.0, text: pt.0 }, s4),
                                ),
                                None => None,
                            },
                            None => None,
                        },
                        None => None,
                    },
                    None => None,
                },
                None => None,
            },
            None => None,
        },
        None => None,
    }
}

/// Consumes one or more comma-separated question objects.
pub open spec fn p_question_items(s: Seq<char>) -> Option<(Seq<QuestionV>, Seq<char>)>
    decreases s.len(),
{
    match p_question(s) {
        Some(pa) => if pa.1.len() > 0 && pa.1[0] == ',' {
            if pa.1.len() < s.len() {
                match p_question_items(pa.1.skip(1)) {
                    Some(pl) => Some((seq![pa.0] + pl.0, pl.1)),
                    None => None,
                }
            } else {
                None
            }
        } else {
            Some((seq![pa.0], pa.1))
        },
        None => None,
    }
}

/// The outcome of decoding a request.
pub enum ReqDecV {
    /// A well-formed message with a known action tag.
    Decoded(RequestV),
    /// A well-formed object whose action tag names no known variant,
    /// or whose first key is not the action tag.
    UnknownTag,
    /// Anything else.
    Invalid,
}

/// What follows a `GetQuizzes` tag.
pub open spec fn dec_tail_get_quizzes(rest: Seq<char>) -> ReqDecV {
    match p_lit(rest, "}"@) {
        Some(r) => if r.len() == 0 {
            ReqDecV::Decoded(RequestV::GetQuizzes)
        } else {
            ReqDecV::Invalid
        },
        None => ReqDecV::Invalid,
    }
}

/// What follows a `GetQuestionsForQuiz` tag.
pub open spec fn dec_tail_get_questions(rest: Seq<char>) -> ReqDecV {
    match p_lit(rest, ",\"quiz_id\":"@) {
        Some(r1) => match p_int(r1) {
            Some(pi) => match p_lit(pi.1, "}"@) {
                Some(r2) => if r2.len() == 0 {
                    ReqDecV::Decoded(RequestV::GetQuestionsForQuiz { quiz_id: pi.0 })
                } else {
                    ReqDecV::Invalid
                },
                None => ReqDecV::Invalid,
            },
            None => ReqDecV::Invalid,
        },
        None => ReqDecV::Invalid,
    }
}

/// What follows an `AddQuiz` tag.
pub open spec fn dec_tail_add_quiz(rest: Seq<char>) -> ReqDecV {
    match p_lit(rest, ",\"name\":"@) {
        Some(r1) => match p_str(r1) {
            Some(pn) => match p_lit(pn.1, "}"@) {
                Some(r2) => if r2.len() == 0 {
                    ReqDecV::Decoded(RequestV::AddQuiz { name: pn.0 })
                } else {
                    ReqDecV::Invalid
                },
                None => ReqDecV::Invalid,
            },
            None => ReqDecV::Invalid,
        },
        None => ReqDecV::Invalid,
    }
}

/// What follows an `AddQuestion` tag.
pub open spec fn dec_tail_add_question(rest: Seq<char>) -> ReqDecV {
    match p_lit(rest, ",\"quiz_id\":"@) {
        Some(r1) => match p_int(r1) {
            Some(pi) => match p_lit(pi.1, ",\"text\":"@) {
                Some(r2) => match p_str(r2) {
                    Some(pt) => match p_lit(pt.1, "}"@) {
                        Some(r3) => if r3.len() == 0 {
                            ReqDecV::Decoded(
                                RequestV::AddQuestion { quiz_id: pi.0, text: pt.0 },
                            )
                        } else {
                            ReqDecV::Invalid
                        },
                        None => ReqDecV::Invalid,
                    },
                    None => ReqDecV::Invalid,
                },
                None => ReqDecV::Invalid,
            },
            None => ReqDecV::Invalid,
        },
        None => ReqDecV::Invalid,
    }
}

/// What follows an `AddAnswers` tag.
pub open spec fn dec_tail_add_answers(rest: Seq<char>) -> ReqDecV {
    match p_lit(rest, ",\"question_id\":"@) {
        Some(r1) => match p_int(r1) {
            Some(pi) => match p_lit(pi.1, ",\"answers\":["@) {
                Some(r2) => match p_lit(r2, "]}"@) {
                    Some(r3) => if r3.len() == 0 {
                        ReqDecV::Decoded(
                            RequestV::AddAnswers { question_id: pi.0, answers: Seq::empty() },
                        )
                    } else {
                        ReqDecV::Invalid
                    },
                    None => match p_answer_items(r2) {
                        Some(pl) => match p_lit(pl.1, "]}"@) {
                            Some(r3) => if r3.len() == 0 {
                                ReqDecV::Decoded(
                                    RequestV::AddAnswers { question_id: pi.0, answers: pl.0 },
                                )
                            } else {
                                ReqDecV::Invalid
                            },
                            None => ReqDecV::Invalid,
                        },
                        None => ReqDecV::Invalid,
                    },
                },
                None => ReqDecV::Invalid,
            },
            None => ReqDecV::Invalid,
        },
        None => ReqDecV::Invalid,
    }
}

/// Decodes a request. The first key must be the action tag; its value
/// picks the variant whose fields follow in a fixed order. An object
/// whose tag is unknown, or whose first key is not the action tag,
/// decodes to `UnknownTag`; anything else to `Invalid`.
pub open spec fn dec_req(s: Seq<char>) -> ReqDecV {
    match p_lit(s, "{\"action\":\""@) {
        Some(s1) => match p_str_body(s1) {
            Some(pt) => {
                let tag = pt.0;
                let rest = pt.1;
                if tag == "GetQuizzes"@ {
                    dec_tail_get_quizzes(rest)
                } else if tag == "GetQuestionsForQuiz"@ {
                    dec_tail_get_questions(rest)
                } else if tag == "AddQuiz"@ {
                    dec_tail_add_quiz(rest)
                } else if tag == "AddQuestion"@ {
                    dec_tail_add_question(rest)
                } else if tag == "AddAnswers"@ {
                    dec_tail_add_answers(rest)
                } else {
                    ReqDecV::UnknownTag
                }
            },
            None => ReqDecV::Invalid,
        },
        None => match p_lit(s, "{"@) {
            Some(s1) => match p_str(s1) {
                Some(p) => ReqDecV::UnknownTag,
                None => ReqDecV::Invalid,
            },
            None => ReqDecV::Invalid,
        },
    }
}

/// Decodes a response, strictly: the single key picks the variant,
/// the payload follows, nothing may trail the closing brace.
pub open spec fn dec_resp(s: Seq<char>) -> Option<ResponseV> {
    match p_lit(s, "{\"Quizzes\":["@) {
        Some(s1) => match p_lit(s1, "]}"@) {
            Some(r) => if r.len() == 0 {
                Some(ResponseV::Quizzes(Seq::empty()))
            } else {
                None
            },
            None => match p_quiz_items(s1) {
                Some(pl) => match p_lit(pl.1, "]}"@) {
                    Some(r) => if r.len() == 0 {
                        Some(ResponseV::Quizzes(pl.0))
                    } else {
                        None
                    },
                    None => None,
                },
                None => None,
            },
        },
        None => match p_lit(s, "{\"Questions\":["@) {
            Some(s1) => match p_lit(s1, "]}"@) {
                Some(r) => if r.len() == 0 {
                    Some(ResponseV::Questions(Seq::empty()))
                } else {
                    None
                },
                None => match p_question_items(s1) {
                    Some(pl) => match p_lit(pl.1, "]}"@) {
                        Some(r) => if r.len() == 0 {
                            Some(ResponseV::Questions(pl.0))
                        } else {
                            None
                        },
                        None => None,
                    },
                    None => None,
                },
            },
            None => match p_lit(s, "{\"Success\":"@) {
                Some(s1) => match p_str(s1) {
                    Some(pm) => match p_lit(pm.1, "}"@) {
                        Some(r) => if r.len() == 0 {
                            Some(ResponseV::Success(pm.0))
                        } else {
                            None
                        },
                        None => None,
                    },
                    None => None,
                },
                None => match p_lit(s, "{\"Error\":"@) {
                    Some(s1) => match p_str(s1) {
                        Some(pm) => match p_lit(pm.1, "}"@) {
                            Some(r) => if r.len() == 0 {
                                Some(ResponseV::Error(pm.0))
                            } else {
                                None
                            },
                            None => None,
                        },
                        None => None,
                    },
                    None => None,
                },
            },
        },
    }
}

proof fn lemma_p_lit_prefix(l: Seq<char>, rest: Seq<char>)
    ensures
        p_lit(l + rest, l) == Some(rest),
{
    assert((l + rest).take(l.len() as int) =~= l);
    assert((l + rest).skip(l.len() as int) =~= rest);
}

proof fn lemma_esc_clean(t: Seq<char>)
    requires
        forall|i: int| 0 <= i < t.len() ==> #[trigger] t[i] != '"' && t[i] != '\\'
            && t[i] as u32 >= 32,
    ensures
        esc(t) == t,
    decreases t.len(),
{
    if t.len() == 0 {
        assert(esc(t) =~= t);
    } else {
        lemma_esc_clean(t.skip(1));
        assert(esc_char(t[0]) =~= seq![t[0]]);
        assert(esc(t) =~= t);
    }
}

proof fn lemma_hex_char_val(d: int)
    requires
        0 <= d < 16,
    ensures
        is_hex(hex_char(d)),
        hex_val(hex_char(d)) == d,
{
    if d < 10 {
        assert(hex_char(d) as u32 == 48 + d);
    } else {
        assert(hex_char(d) as u32 == 87 + d);
    }
}

proof fn lemma_p_str_body_enc(v: Seq<char>, rest: Seq<char>)
    ensures
        p_str_body(esc(v) + seq!['"'] + rest) == Some((v, rest)),
    decreases v.len(),
{
    let s = esc(v) + seq!['"'] + rest;
    if v.len() == 0 {
        assert(esc(v) =~= Seq::<char>::empty());
        assert(s[0] == '"');
        assert(s.skip(1) =~= rest);
    } else {
        let c = v[0];
        assert(esc(v) == esc_char(c) + esc(v.skip(1)));
        lemma_p_str_body_enc(v.skip(1), rest);
        if c == '"' || c == '\\' {
            assert(esc_char(c) =~= seq!['\\', c]);
            assert(s[0] == '\\');
            assert(s[1] == c);
            assert(s.len() >= 2);
            assert(s.skip(2) =~= esc(v.skip(1)) + seq!['"'] + rest);
            assert(seq![s[1]] + v.skip(1) =~= v);
        } else if (c as u32) < 32 {
            let cu = (c as u32) as int;
            lemma_hex_char_val(cu / 16);
            lemma_hex_char_val(cu % 16);
            assert(esc_char(c) =~= seq!['\\', 'u', '0', '0', hex_char(cu / 16), hex_char(
                cu % 16,
            )]);
            assert(s[0] == '\\');
            assert(s[1] == 'u');
            assert(s[2] == '0');
            assert(s[3] == '0');
            assert(s[4] == hex_char(cu / 16));
            assert(s[5] == hex_char(cu % 16));
            assert(s.len() >= 6);
            assert(s[1] != '"' && s[1] != '\\');
            assert(s.skip(6) =~= esc(v.skip(1)) + seq!['"'] + rest);
            assert(hex_val(s[4]) * 16 + hex_val(s[5]) == cu);
            let code32 = (hex_val(s[4]) * 16 + hex_val(s[5])) as u32;
            assert(code32 == c as u32);
            vstd::utf8::char_u32_cast(c, code32);
            assert((code32 as char) == c);
            assert(seq![((hex_val(s[4]) * 16 + hex_val(s[5])) as u32) as char] + v.skip(1) =~= v);
        } else {
            assert(esc_char(c) =~= seq![c]);
            assert(s[0] == c);
            assert(s.skip(1) =~= esc(v.skip(1)) + seq!['"'] + rest);
            assert(seq![s[0]] + v.skip(1) =~= v);
        }
    }
}

proof fn lemma_p_str_enc(v: Seq<char>, rest: Seq<char>)
    ensures
        p_str(enc_str(v) + rest) == Some((v, rest)),
{
    let s = enc_str(v) + rest;
    assert(s[0] == '"');
    assert(s.skip(1) =~= esc(v) + seq!['"'] + rest);
    lemma_p_str_body_enc(v, rest);
}

proof fn lemma_p_digits_all(ds: Seq<char>, rest: Seq<char>)
    requires
        all_digits(ds),
        rest.len() > 0 ==> !is_digit(rest[0]),
    ensures
        p_digits(ds + rest) == (ds, rest),
    decreases ds.len(),
{
    if ds.len() == 0 {
        assert(ds + rest =~= rest);
    } else {
        assert((ds + rest)[0] == ds[0]);
        assert(is_digit(ds[0]));
        assert(all_digits(ds.skip(1))) by {
            assert(forall|i: int| 0 <= i < ds.skip(1).len() ==> ds.skip(1)[i] == ds[i + 1]);
        }
        lemma_p_digits_all(ds.skip(1), rest);
        assert((ds + rest).skip(1) =~= ds.skip(1) + rest);
        assert(seq![(ds + rest)[0]] + ds.skip(1) =~= ds);
    }
}

proof fn lemma_pow10_concrete()
    ensures
        pow10(10) == 10000000000,
{
    assert(pow10(0) == 1);
    assert(pow10(1) == 10);
    assert(pow10(2) == 100);
    assert(pow10(3) == 1000);
    assert(pow10(4) == 10000);
    assert(pow10(5) == 100000);
    assert(pow10(6) == 1000000);
    assert(pow10(7) == 10000000);
    assert(pow10(8) == 100000000);
    assert(pow10(9) == 1000000000);
}

proof fn lemma_p_int_enc(v: int, rest: Seq<char>)
    requires
        i32_range(v),
        rest.len() > 0 ==> !is_digit(rest[0]),
    ensures
        p_int(enc_int(v) + rest) == Some((v, rest)),
{
    lemma_pow10_concrete();
    if v < 0 {
        let m = -v;
        let s = enc_int(v) + rest;
        assert(enc_int(v) == seq!['-'] + enc_nat(m));
        assert(s[0] == '-');
        assert(s.skip(1) =~= enc_nat(m) + rest);
        lemma_enc_nat_digits(m);
        lemma_p_digits_all(enc_nat(m), rest);
        lemma_enc_nat_len(m, 10);
        lemma_digits_val_enc_nat(m);
    } else {
        let s = enc_int(v) + rest;
        assert(enc_int(v) == enc_nat(v));
        lemma_enc_nat_digits(v);
        assert(s[0] == enc_nat(v)[0]);
        assert(is_digit(s[0]));
        assert(s[0] != '-');
        lemma_p_digits_all(enc_nat(v), rest);
        lemma_enc_nat_len(v, 10);
        lemma_digits_val_enc_nat(v);
    }
}

proof fn lemma_p_bool_enc(b: bool, rest: Seq<char>)
    ensures
        p_bool(enc_bool(b) + rest) == Some((b, rest)),
{
    reveal_strlit("true");
    reveal_strlit("false");
    if b {
        lemma_p_lit_prefix("true"@, rest);
    } else {
        let s = "false"@ + rest;
        assert(s[0] == 'f');
        assert(s.take(4)[0] == 'f');
        assert(p_lit(s, "true"@) is None);
        lemma_p_lit_prefix("false"@, rest);
    }
}

proof fn lemma_p_answer_enc(a: AnswerV, rest: Seq<char>)
    requires
        answer_input_wf(a),
    ensures
        p_answer(enc_answer(a) + rest) == Some((a, rest)),
{
    reveal_strlit("{\"text\":");
    reveal_strlit(",\"is_correct\":");
    reveal_strlit("}");
    let l1 = "{\"text\":"@;
    let l2 = ",\"is_correct\":"@;
    let l3 = "}"@;
    let s = enc_answer(a) + rest;
    let x1 = enc_str(a.text) + (l2 + (enc_bool(a.is_correct) + (l3 + rest)));
    assert(s =~= l1 + x1);
    lemma_p_lit_prefix(l1, x1);
    lemma_p_str_enc(a.text, l2 + (enc_bool(a.is_correct) + (l3 + rest)));
    lemma_p_lit_prefix(l2, enc_bool(a.is_correct) + (l3 + rest));
    lemma_p_bool_enc(a.is_correct, l3 + rest);
    lemma_p_lit_prefix(l3, rest);
    assert(a == (AnswerV { id: 0, question_id: 0, text: a.text, is_correct: a.is_correct }));
}

proof fn lemma_enc_answer_head(a: AnswerV)
    ensures
        enc_answer(a).len() > 0,
        enc_answer(a)[0] == '{',
{
    reveal_strlit("{\"text\":");
    assert(enc_answer(a)[0] == "{\"text\":"@[0]);
}

proof fn lemma_p_answer_items_enc(l: Seq<AnswerV>, rest: Seq<char>)
    requires
        l.len() >= 1,
        forall|i: int| 0 <= i < l.len() ==> answer_input_wf(#[trigger] l[i]),
        rest.len() > 0 ==> rest[0] != ',',
    ensures
        p_answer_items(enc_answers(l) + rest) == Some((l, rest)),
    decreases l.len(),
{
    let s = enc_answers(l) + rest;
    if l.len() == 1 {
        assert(enc_answers(l) == enc_answer(l[0]));
        lemma_p_answer_enc(l[0], rest);
        assert(seq![l[0]] =~= l);
    } else {
        let tail = seq![','] + (enc_answers(l.skip(1)) + rest);
        assert(enc_answers(l) == enc_answer(l[0]) + seq![','] + enc_answers(l.skip(1)));
        assert(s =~= enc_answer(l[0]) + tail);
        lemma_p_answer_enc(l[0], tail);
        assert(tail[0] == ',');
        lemma_enc_answer_head(l[0]);
        assert(tail.len() < s.len());
        assert(tail.skip(1) =~= enc_answers(l.skip(1)) + rest);
        assert(forall|i: int| 0 <= i < l.skip(1).len() ==> l.skip(1)[i] == l[i + 1]);
        lemma_p_answer_items_enc(l.skip(1), rest);
        assert(seq![l[0]] + l.skip(1) =~= l);
    }
}

proof fn lemma_p_quiz_enc(q: QuizV, rest: Seq<char>)
    requires
        i32_range(q.id),
    ensures
        p_quiz(enc_quiz(q) + rest) == Some((q, rest)),
{
    reveal_strlit("{\"id\":");
    reveal_strlit(",\"name\":");
    reveal_strlit("}");
    let l1 = "{\"id\":"@;
    let l2 = ",\"name\":"@;
    let l3 = "}"@;
    let s = enc_quiz(q) + rest;
    let x1 = enc_int(q.id) + (l2 + (enc_str(q.name) + (l3 + rest)));
    assert(s =~= l1 + x1);
    lemma_p_lit_prefix(l1, x1);
    assert((l2 + (enc_str(q.name) + (l3 + rest)))[0] == ',');
    lemma_p_int_enc(q.id, l2 + (enc_str(q.name) + (l3 + rest)));
    lemma_p_lit_prefix(l2, enc_str(q.name) + (l3 + rest));
    lemma_p_str_enc(q.name, l3 + rest);
    lemma_p_lit_prefix(l3, rest);
    assert(q == (QuizV { id: q.id, name: q.name }));
}

proof fn lemma_enc_quiz_head(q: QuizV)
    ensures
        enc_quiz(q).len() > 0,
        enc_quiz(q)[0] == '{',
{
    reveal_strlit("{\"id\":");
    assert(enc_quiz(q)[0] == "{\"id\":"@[0]);
}

proof fn lemma_p_quiz_items_enc(l: Seq<QuizV>, rest: Seq<char>)
    requires
        l.len() >= 1,
        forall|i: int| 0 <= i < l.len() ==> i32_range(#[trigger] l[i].id),
        rest.len() > 0 ==> rest[0] != ',',
    ensures
        p_quiz_items(enc_quizzes(l) + rest) == Some((l, rest)),
    decreases l.len(),
{
    let s = enc_quizzes(l) + rest;
    if l.len() == 1 {
        assert(enc_quizzes(l) == enc_quiz(l[0]));
        lemma_p_quiz_enc(l[0], rest);
        assert(seq![l[0]] =~= l);
    } else {
        let tail = seq![','] + (enc_quizzes(l.skip(1)) + rest);
        assert(enc_quizzes(l) == enc_quiz(l[0]) + seq![','] + enc_quizzes(l.skip(1)));
        assert(s =~= enc_quiz(l[0]) + tail);
        lemma_p_quiz_enc(l[0], tail);
        assert(tail[0] == ',');
        lemma_enc_quiz_head(l[0]);
        assert(tail.len() < s.len());
        assert(tail.skip(1) =~= enc_quizzes(l.skip(1)) + rest);
        assert(forall|i: int| 0 <= i < l.skip(1).len() ==> l.skip(1)[i] == l[i + 1]);
        lemma_p_quiz_items_enc(l.skip(1), rest);
        assert(seq![l[0]] + l.skip(1) =~= l);
    }
}

proof fn lemma_p_question_enc(q: QuestionV, rest: Seq<char>)
    requires
        i32_range(q.id),
        i32_range(q.quiz_id),
    ensures
        p_question(enc_question(q) + rest) == Some((q, rest)),
{
    reveal_strlit("{\"id\":");
    reveal_strlit(",\"quiz_id\":");
    reveal_strlit(",\"text\":");
    reveal_strlit("}");
    let l1 = "{\"id\":"@;
    let l2 = ",\"quiz_id\":"@;
    let l3 = ",\"text\":"@;
    let l4 = "}"@;
    let s = enc_question(q) + rest;
    let x1 = enc_int(q.id) + (l2 + (enc_int(q.quiz_id) + (l3 + (enc_str(q.text) + (l4
        + rest)))));
    assert(s =~= l1 + x1);
    lemma_p_lit_prefix(l1, x1);
    assert((l2 + (enc_int(q.quiz_id) + (l3 + (enc_str(q.text) + (l4 + rest)))))[0] == ',');
    lemma_p_int_enc(q.id, l2 + (enc_int(q.quiz_id) + (l3 + (enc_str(q.text) + (l4 + rest)))));
    lemma_p_lit_prefix(l2, enc_int(q.quiz_id) + (l3 + (enc_str(q.text) + (l4 + rest))));
    assert((l3 + (enc_str(q.text) + (l4 + rest)))[0] == ',');
    lemma_p_int_enc(q.quiz_id, l3 + (enc_str(q.text) + (l4 + rest)));
    lemma_p_lit_prefix(l3, enc_str(q.text) + (l4 + rest));
    lemma_p_str_enc(q.text, l4 + rest);
    lemma_p_lit_prefix(l4, rest);
    assert(q == (QuestionV { id: q.id, quiz_id: q.quiz_id, text: q.text }));
}

proof fn lemma_enc_question_head(q: QuestionV)
    ensures
        enc_question(q).len() > 0,
        enc_question(q)[0] == '{',
{
    reveal_strlit("{\"id\":");
    assert(enc_question(q)[0] == "{\"id\":"@[0]);
}

proof fn lemma_p_question_items_enc(l: Seq<QuestionV>, rest: Seq<char>)
    requires
        l.len() >= 1,
        forall|i: int| 0 <= i < l.len() ==> i32_range(#[trigger] l[i].id) && i32_range(
            l[i].quiz_id,
        ),
        rest.len() > 0 ==> rest[0] != ',',
    ensures
        p_question_items(enc_questions(l) + rest) == Some((l, rest)),
    decreases l.len(),
{
    let s = enc_questions(l) + rest;
    if l.len() == 1 {
        assert(enc_questions(l) == enc_question(l[0]));
        lemma_p_question_enc(l[0], rest);
        assert(seq![l[0]] =~= l);
    } else {
        let tail = seq![','] + (enc_questions(l.skip(1)) + rest);
        assert(enc_questions(l) == enc_question(l[0]) + seq![','] + enc_questions(l.skip(1)));
        assert(s =~= enc_question(l[0]) + tail);
        lemma_p_question_enc(l[0], tail);
        assert(tail[0] == ',');
        lemma_enc_question_head(l[0]);
        assert(tail.len() < s.len());
        assert(tail.skip(1) =~= enc_questions(l.skip(1)) + rest);
        assert(forall|i: int| 0 <= i < l.skip(1).len() ==> l.skip(1)[i] == l[i + 1]);
        lemma_p_question_items_enc(l.skip(1), rest);
        assert(seq![l[0]] + l.skip(1) =~= l);
    }
}

/// Round trip for requests: decoding the encoding of any request value
/// the wire format can carry (integers in 32-bit range; the answers of
/// an `AddAnswers` request carry no row identifiers) gives back that
/// value.
#[verifier::rlimit(80)]
pub proof fn lemma_request_round_trip(r: RequestV)
    requires
        request_wf(r),
    ensures
        dec_req(enc_req(r)) == ReqDecV::Decoded(r),
{
    reveal_strlit("{\"action\":\"");
    reveal_strlit("}");
    let pre = "{\"action\":\""@;
    let cl = "}"@;
    match r {
        RequestV::GetQuizzes => {
            reveal_strlit("{\"action\":\"GetQuizzes\"}");
            reveal_strlit("GetQuizzes");
            let tag = "GetQuizzes"@;
            let s = enc_req(r);
            assert(s =~= pre + (esc(tag) + seq!['"'] + cl)) by {
                lemma_esc_clean(tag);
            }
            lemma_p_lit_prefix(pre, esc(tag) + seq!['"'] + cl);
            lemma_p_str_body_enc(tag, cl);
            assert(cl =~= cl + Seq::<char>::empty());
            lemma_p_lit_prefix(cl, Seq::<char>::empty());
        },
        RequestV::GetQuestionsForQuiz { quiz_id } => {
            reveal_strlit("{\"action\":\"GetQuestionsForQuiz\",\"quiz_id\":");
            reveal_strlit("GetQuestionsForQuiz");
            reveal_strlit(",\"quiz_id\":");
            let tag = "GetQuestionsForQuiz"@;
            let l2 = ",\"quiz_id\":"@;
            let s = enc_req(r);
            let x = l2 + (enc_int(quiz_id) + cl);
            assert(s =~= pre + (esc(tag) + seq!['"'] + x)) by {
                lemma_esc_clean(tag);
            }
            lemma_p_lit_prefix(pre, esc(tag) + seq!['"'] + x);
            lemma_p_str_body_enc(tag, x);
            assert(tag != "GetQuizzes"@) by {
                reveal_strlit("GetQuizzes");
            }
            lemma_p_lit_prefix(l2, enc_int(quiz_id) + cl);
            assert(cl[0] == '}');
            lemma_p_int_enc(quiz_id, cl);
            assert(cl =~= cl + Seq::<char>::empty());
            lemma_p_lit_prefix(cl, Seq::<char>::empty());
        },
        RequestV::AddQuiz { name } => {
            reveal_strlit("{\"action\":\"AddQuiz\",\"name\":");
            reveal_strlit("AddQuiz");
            reveal_strlit(",\"name\":");
            let tag = "AddQuiz"@;
            let l2 = ",\"name\":"@;
            let s = enc_req(r);
            let x = l2 + (enc_str(name) + cl);
            assert(s =~= pre + (esc(tag) + seq!['"'] + x)) by {
                lemma_esc_clean(tag);
            }
            lemma_p_lit_prefix(pre, esc(tag) + seq!['"'] + x);
            lemma_p_str_body_enc(tag, x);
            assert(tag != "GetQuizzes"@) by {
                reveal_strlit("GetQuizzes");
            }
            assert(tag != "GetQuestionsForQuiz"@) by {
                reveal_strlit("GetQuestionsForQuiz");
            }
            lemma_p_lit_prefix(l2, enc_str(name) + cl);
            lemma_p_str_enc(name, cl);
            assert(cl =~= cl + Seq::<char>::empty());
            lemma_p_lit_prefix(cl, Seq::<char>::empty());
        },
        RequestV::AddQuestion { quiz_id, text } => {
            reveal_strlit("{\"action\":\"AddQuestion\",\"quiz_id\":");
            reveal_strlit("AddQuestion");
            reveal_strlit(",\"quiz_id\":");
            reveal_strlit(",\"text\":");
            let tag = "AddQuestion"@;
            let l2 = ",\"quiz_id\":"@;
            let l3 = ",\"text\":"@;
            let s = enc_req(r);
            let x = l2 + (enc_int(quiz_id) + (l3 + (enc_str(text) + cl)));
            assert(s =~= pre + (esc(tag) + seq!['"'] + x)) by {
                lemma_esc_clean(tag);
            }
            lemma_p_lit_prefix(pre, esc(tag) + seq!['"'] + x);
            lemma_p_str_body_enc(tag, x);
            assert(tag != "GetQuizzes"@) by {
                reveal_strlit("GetQuizzes");
            }
            assert(tag != "GetQuestionsForQuiz"@) by {
                reveal_strlit("GetQuestionsForQuiz");
            }
            assert(tag != "AddQuiz"@) by {
                reveal_strlit("AddQuiz");
            }
            lemma_p_lit_prefix(l2, enc_int(quiz_id) + (l3 + (enc_str(text) + cl)));
            assert((l3 + (enc_str(text) + cl))[0] == ',');
            lemma_p_int_enc(quiz_id, l3 + (enc_str(text) + cl));
            lemma_p_lit_prefix(l3, enc_str(text) + cl);
            lemma_p_str_enc(text, cl);
            assert(cl =~= cl + Seq::<char>::empty());
            lemma_p_lit_prefix(cl, Seq::<char>::empty());
        },
        RequestV::AddAnswers { question_id, answers } => {
            reveal_strlit("{\"action\":\"AddAnswers\",\"question_id\":");
            reveal_strlit("AddAnswers");
            reveal_strlit(",\"question_id\":");
            reveal_strlit(",\"answers\":[");
            reveal_strlit("]}");
            let tag = "AddAnswers"@;
            let l2 = ",\"question_id\":"@;
            let l3 = ",\"answers\":["@;
            let l4 = "]}"@;
            let s = enc_req(r);
            let x = l2 + (enc_int(question_id) + (l3 + (enc_answers(answers) + l4)));
            assert(s =~= pre + (esc(tag) + seq!['"'] + x)) by {
                lemma_esc_clean(tag);
            }
            lemma_p_lit_prefix(pre, esc(tag) + seq!['"'] + x);
            lemma_p_str_body_enc(tag, x);
            assert(tag != "GetQuizzes"@) by {
                reveal_strlit("GetQuizzes");
            }
            assert(tag != "GetQuestionsForQuiz"@) by {
                reveal_strlit("GetQuestionsForQuiz");
            }
            assert(tag != "AddQuiz"@) by {
                reveal_strlit("AddQuiz");
            }
            assert(tag != "AddQuestion"@) by {
                reveal_strlit("AddQuestion");
            }
            lemma_p_lit_prefix(l2, enc_int(question_id) + (l3 + (enc_answers(answers) + l4)));
            assert((l3 + (enc_answers(answers) + l4))[0] == ',');
            lemma_p_int_enc(question_id, l3 + (enc_answers(answers) + l4));
            lemma_p_lit_prefix(l3, enc_answers(answers) + l4);
            let r2 = enc_answers(answers) + l4;
            if answers.len() == 0 {
                assert(r2 =~= l4 + Seq::<char>::empty());
                lemma_p_lit_prefix(l4, Seq::<char>::empty());
                assert(answers =~= Seq::<AnswerV>::empty());
            } else {
                lemma_enc_answer_head(answers[0]);
                assert(enc_answers(answers)[0] == '{') by {
                    if answers.len() == 1 {
                    } else {
                        assert(enc_answers(answers)[0] == enc_answer(answers[0])[0]);
                    }
                }
                assert(r2[0] == '{');
                assert(r2.take(2)[0] == '{');
                assert(l4[0] == ']');
                assert(p_lit(r2, l4) is None);
                assert(l4[0] != ',');
                lemma_p_answer_items_enc(answers, l4);
                assert(l4 =~= l4 + Seq::<char>::empty());
                lemma_p_lit_prefix(l4, Seq::<char>::empty());
            }
        },
    }
}

/// Round trip for responses: decoding the encoding of any response
/// value the wire format can carry (row identifiers in 32-bit range)
/// gives back that value.
#[verifier::rlimit(80)]
pub proof fn lemma_response_round_trip(r: ResponseV)
    requires
        response_wf(r),
    ensures
        dec_resp(enc_resp(r)) == Some(r),
{
    reveal_strlit("{\"Quizzes\":[");
    reveal_strlit("{\"Questions\":[");
    reveal_strlit("{\"Success\":");
    reveal_strlit("{\"Error\":");
    reveal_strlit("]}");
    reveal_strlit("}");
    let lq = "{\"Quizzes\":["@;
    let ln = "{\"Questions\":["@;
    let ls = "{\"Success\":"@;
    let le = "{\"Error\":"@;
    let lb = "]}"@;
    let cl = "}"@;
    match r {
        ResponseV::Quizzes(l) => {
            let s = enc_resp(r);
            assert(s =~= lq + (enc_quizzes(l) + lb));
            lemma_p_lit_prefix(lq, enc_quizzes(l) + lb);
            let r2 = enc_quizzes(l) + lb;
            if l.len() == 0 {
                assert(r2 =~= lb + Seq::<char>::empty());
                lemma_p_lit_prefix(lb, Seq::<char>::empty());
                assert(l =~= Seq::<QuizV>::empty());
            } else {
                lemma_enc_quiz_head(l[0]);
                assert(enc_quizzes(l)[0] == '{') by {
                    if l.len() == 1 {
                    } else {
                        assert(enc_quizzes(l)[0] == enc_quiz(l[0])[0]);
                    }
                }
                assert(r2.take(2)[0] == '{');
                assert(lb[0] == ']');
                assert(p_lit(r2, lb) is None);
                assert(lb[0] != ',');
                lemma_p_quiz_items_enc(l, lb);
                assert(lb =~= lb + Seq::<char>::empty());
                lemma_p_lit_prefix(lb, Seq::<char>::empty());
            }
        },
        ResponseV::Questions(l) => {
            let s = enc_resp(r);
            assert(s =~= ln + (enc_questions(l) + lb));
            assert(p_lit(s, lq) is None) by {
                if lq.len() <= s.len() {
                    assert(s[4] == 'e');
                    assert(s.take(lq.len() as int)[4] == 'e');
                }
            }
            lemma_p_lit_prefix(ln, enc_questions(l) + lb);
            let r2 = enc_questions(l) + lb;
            if l.len() == 0 {
                assert(r2 =~= lb + Seq::<char>::empty());
                lemma_p_lit_prefix(lb, Seq::<char>::empty());
                assert(l =~= Seq::<QuestionV>::empty());
            } else {
                lemma_enc_question_head(l[0]);
                assert(enc_questions(l)[0] == '{') by {
                    if l.len() == 1 {
                    } else {
                        assert(enc_questions(l)[0] == enc_question(l[0])[0]);
                    }
                }
                assert(r2.take(2)[0] == '{');
                assert(lb[0] == ']');
                assert(p_lit(r2, lb) is None);
                assert(lb[0] != ',');
                lemma_p_question_items_enc(l, lb);
                assert(lb =~= lb + Seq::<char>::empty());
                lemma_p_lit_prefix(lb, Seq::<char>::empty());
            }
        },
        ResponseV::Success(m) => {
            let s = enc_resp(r);
            assert(s =~= ls + (enc_str(m) + cl));
            assert(p_lit(s, lq) is None) by {
                if lq.len() <= s.len() {
                    assert(s[2] == 'S');
                    assert(s.take(lq.len() as int)[2] == 'S');
                }
            }
            assert(p_lit(s, ln) is None) by {
                if ln.len() <= s.len() {
                    assert(s[2] == 'S');
                    assert(s.take(ln.len() as int)[2] == 'S');
                }
            }
            lemma_p_lit_prefix(ls, enc_str(m) + cl);
            lemma_p_str_enc(m, cl);
            assert(cl =~= cl + Seq::<char>::empty());
            lemma_p_lit_prefix(cl, Seq::<char>::empty());
        },
        ResponseV::Error(m) => {
            let s = enc_resp(r);
            assert(s =~= le + (enc_str(m) + cl));
            assert(p_lit(s, lq) is None) by {
                if lq.len() <= s.len() {
                    assert(s[2] == 'E');
                    assert(s.take(lq.len() as int)[2] == 'E');
                }
            }
            assert(p_lit(s, ln) is None) by {
                if ln.len() <= s.len() {
                    assert(s[2] == 'E');
                    assert(s.take(ln.len() as int)[2] == 'E');
                }
            }
            assert(p_lit(s, ls) is None) by {
                if ls.len() <= s.len() {
                    assert(s[2] == 'E');
                    assert(s.take(ls.len() as int)[2] == 'E');
                }
            }
            lemma_p_lit_prefix(le, enc_str(m) + cl);
            lemma_p_str_enc(m, cl);
            assert(cl =~= cl + Seq::<char>::empty());
            lemma_p_lit_prefix(cl, Seq::<char>::empty());
        },
    }
}

proof fn lemma_enc_answers_push(a: Seq<AnswerV>, x: AnswerV)
    ensures
        enc_answers(a.push(x)) == (if a.len() == 0 {
            enc_answer(x)
        } else {
            enc_answers(a) + seq![','] + enc_answer(x)
        }),
    decreases a.len(),
{
    let p = a.push(x);
    if a.len() == 0 {
        assert(p.len() == 1);
        assert(p[0] == x);
    } else {
        assert(p[0] == a[0]);
        assert(p.skip(1) =~= a.skip(1).push(x));
        lemma_enc_answers_push(a.skip(1), x);
        if a.len() == 1 {
            assert(a.skip(1).len() == 0);
        } else {
            assert(enc_answers(p) =~= enc_answers(a) + seq![','] + enc_answer(x));
        }
    }
}

proof fn lemma_enc_quizzes_push(a: Seq<QuizV>, x: QuizV)
    ensures
        enc_quizzes(a.push(x)) == (if a.len() == 0 {
            enc_quiz(x)
        } else {
            enc_quizzes(a) + seq![','] + enc_quiz(x)
        }),
    decreases a.len(),
{
    let p = a.push(x);
    if a.len() == 0 {
        assert(p.len() == 1);
        assert(p[0] == x);
    } else {
        assert(p[0] == a[0]);
        assert(p.skip(1) =~= a.skip(1).push(x));
        lemma_enc_quizzes_push(a.skip(1), x);
        if a.len() == 1 {
            assert(a.skip(1).len() == 0);
        } else {
            assert(enc_quizzes(p) =~= enc_quizzes(a) + seq![','] + enc_quiz(x));
        }
    }
}

proof fn lemma_enc_questions_push(a: Seq<QuestionV>, x: QuestionV)
    ensures
        enc_questions(a.push(x)) == (if a.len() == 0 {
            enc_question(x)
        } else {
            enc_questions(a) + seq![','] + enc_question(x)
        }),
    decreases a.len(),
{
    let p = a.push(x);
    if a.len() == 0 {
        assert(p.len() == 1);
        assert(p[0] == x);
    } else {
        assert(p[0] == a[0]);
        assert(p.skip(1) =~= a.skip(1).push(x));
        lemma_enc_questions_push(a.skip(1), x);
        if a.len() == 1 {
            assert(a.skip(1).len() == 0);
        } else {
            assert(enc_questions(p) =~= enc_questions(a) + seq![','] + enc_question(x));
        }
    }
}

/// Appends the encoding of one answer of a request.
fn append_answer(out: &mut String, a: &Answer)
    ensures
        final(out)@ == old(out)@ + enc_answer(a@),
{
    out.append("{\"text\":");
    append_str_enc(out, a.text.as_str());
    out.append(",\"is_correct\":");
    if a.is_correct {
        out.append("true");
    } else {
        out.append("false");
    }
    out.append("}");
    assert(final(out)@ =~= old(out)@ + enc_answer(a@));
}

/// Appends the encoding of one quiz row.
fn append_quiz(out: &mut String, q: &Quiz)
    ensures
        final(out)@ == old(out)@ + enc_quiz(q@),
{
    out.append("{\"id\":");
    append_int(out, q.id);
    out.append(",\"name\":");
    append_str_enc(out, q.name.as_str());
    out.append("}");
    assert(final(out)@ =~= old(out)@ + enc_quiz(q@));
}

/// Appends the encoding of one question row.
fn append_question(out: &mut String, q: &Question)
    ensures
        final(out)@ == old(out)@ + enc_question(q@),
{
    out.append("{\"id\":");
    append_int(out, q.id);
    out.append(",\"quiz_id\":");
    append_int(out, q.quiz_id);
    out.append(",\"text\":");
    append_str_enc(out, q.text.as_str());
    out.append("}");
    assert(final(out)@ =~= old(out)@ + enc_question(q@));
}

/// Encodes a request for the wire.
pub fn encode_request(req: &Request) -> (out: String)
    ensures
        out@ == enc_req(req@),
{
    let mut out = String::new();
    match req {
        Request::GetQuizzes => {
            out.append("{\"action\":\"GetQuizzes\"}");
            assert(out@ =~= enc_req(req@));
        },
        Request::GetQuestionsForQuiz { quiz_id } => {
            out.append("{\"action\":\"GetQuestionsForQuiz\",\"quiz_id\":");
            append_int(&mut out, *quiz_id);
            out.append("}");
            assert(out@ =~= enc_req(req@));
        },
        Request::AddQuiz { name } => {
            out.append("{\"action\":\"AddQuiz\",\"name\":");
            append_str_enc(&mut out, name.as_str());
            out.append("}");
            assert(out@ =~= enc_req(req@));
        },
        Request::AddQuestion { quiz_id, text } => {
            out.append("{\"action\":\"AddQuestion\",\"quiz_id\":");
            append_int(&mut out, *quiz_id);
            out.append(",\"text\":");
            append_str_enc(&mut out, text.as_str());
            out.append("}");
            assert(out@ =~= enc_req(req@));
        },
        Request::AddAnswers { question_id, answers } => {
            out.append("{\"action\":\"AddAnswers\",\"question_id\":");
            append_int(&mut out, *question_id);
            out.append(",\"answers\":[");
            let ghost base = out@;
            let ghost av = answers@.map_values(|a: Answer| a@);
            let mut i: usize = 0;
            while i < answers.len()
                invariant
                    0 <= i <= answers.len(),
                    av == answers@.map_values(|a: Answer| a@),
                    av.len() == answers@.len(),
                    out@ == base + enc_answers(av.take(i as int)),
                decreases answers.len() - i,
            {
                proof {
                    assert(av.take(i as int + 1) =~= av.take(i as int).push(av[i as int]));
                    lemma_enc_answers_push(av.take(i as int), av[i as int]);
                    assert(av[i as int] == answers@[i as int]@);
                }
                if i > 0 {
                    push_char(&mut out, ',');
                    append_answer(&mut out, &answers[i]);
                    assert(out@ =~= base + enc_answers(av.take(i as int + 1)));
                } else {
                    assert(enc_answers(av.take(0)) =~= Seq::<char>::empty());
                    append_answer(&mut out, &answers[i]);
                    assert(out@ =~= base + enc_answers(av.take(i as int + 1)));
                }
                i = i + 1;
            }
            out.append("]}");
            assert(av.take(answers@.len() as int) =~= av);
            assert(out@ =~= enc_req(req@));
        },
    }
    out
}

/// Encodes a response for the wire.
pub fn encode_response(resp: &Response) -> (out: String)
    ensures
        out@ == enc_resp(resp@),
{
    let mut out = String::new();
    match resp {
        Response::Quizzes(list) => {
            out.append("{\"Quizzes\":[");
            let ghost base = out@;
            let ghost lv = list@.map_values(|q: Quiz| q@);
            let mut i: usize = 0;
            while i < list.len()
                invariant
                    0 <= i <= list.len(),
                    lv == list@.map_values(|q: Quiz| q@),
                    lv.len() == list@.len(),
                    out@ == base + enc_quizzes(lv.take(i as int)),
                decreases list.len() - i,
            {
                proof {
                    assert(lv.take(i as int + 1) =~= lv.take(i as int).push(lv[i as int]));
                    lemma_enc_quizzes_push(lv.take(i as int), lv[i as int]);
                    assert(lv[i as int] == list@[i as int]@);
                }
                if i > 0 {
                    push_char(&mut out, ',');
                    append_quiz(&mut out, &list[i]);
                    assert(out@ =~= base + enc_quizzes(lv.take(i as int + 1)));
                } else {
                    assert(enc_quizzes(lv.take(0)) =~= Seq::<char>::empty());
                    append_quiz(&mut out, &list[i]);
                    assert(out@ =~= base + enc_quizzes(lv.take(i as int + 1)));
                }
                i = i + 1;
            }
            out.append("]}");
            assert(lv.take(list@.len() as int) =~= lv);
            assert(out@ =~= enc_resp(resp@));
        },
        Response::Questions(list) => {
            out.append("{\"Questions\":[");
            let ghost base = out@;
            let ghost lv = list@.map_values(|q: Question| q@);
            let mut i: usize = 0;
            while i < list.len()
                invariant
                    0 <= i <= list.len(),
                    lv == list@.map_values(|q: Question| q@),
                    lv.len() == list@.len(),
                    out@ == base + enc_questions(lv.take(i as int)),
                decreases list.len() - i,
            {
                proof {
                    assert(lv.take(i as int + 1) =~= lv.take(i as int).push(lv[i as int]));
                    lemma_enc_questions_push(lv.take(i as int), lv[i as int]);
                    assert(lv[i as int] == list@[i as int]@);
                }
                if i > 0 {
                    push_char(&mut out, ',');
                    append_question(&mut out, &list[i]);
                    assert(out@ =~= base + enc_questions(lv.take(i as int + 1)));
                } else {
                    assert(enc_questions(lv.take(0)) =~= Seq::<char>::empty());
                    append_question(&mut out, &list[i]);
                    assert(out@ =~= base + enc_questions(lv.take(i as int + 1)));
                }
                i = i + 1;
            }
            out.append("]}");
            assert(lv.take(list@.len() as int) =~= lv);
            assert(out@ =~= enc_resp(resp@));
        },
        Response::Success(m) => {
            out.append("{\"Success\":");
            append_str_enc(&mut out, m.as_str());
            out.append("}");
            assert(out@ =~= enc_resp(resp@));
        },
        Response::Error(m) => {
            out.append("{\"Error\":");
            append_str_enc(&mut out, m.as_str());
            out.append("}");
            assert(out@ =~= enc_resp(resp@));
        },
    }
    out
}

/// The outcome of decoding a request from the wire.
#[derive(Debug, Clone, PartialEq, Eq)]
pub enum DecodedRequest {
    /// A well-formed message with a known action tag.
    Parsed(Request),
    /// A well-formed object whose action tag names no known variant,
    /// or whose first key is not the action tag.
    UnknownAction,
    /// Anything else.
    Malformed,
}

/// The characters of `s`, in order.
fn str_to_chars(s: &str) -> (v: Vec<char>)
    ensures
        v@ == s@,
{
    let n = s.unicode_len();
    let mut v: Vec<char> = Vec::new();
    let mut i: usize = 0;
    while i < n
        invariant
            n == s@.len(),
            0 <= i <= n,
            v@ == s@.take(i as int),
        decreases n - i,
    {
        v.push(s.get_char(i));
        assert(v@ =~= s@.take(i as int + 1));
        i = i + 1;
    }
    assert(s@.take(n as int) =~= s@);
    v
}

proof fn lemma_skip_skip(s: Seq<char>, i: int, j: int)
    requires
        0 <= i,
        0 <= j,
        i + j <= s.len(),
    ensures
        s.skip(i).skip(j) == s.skip(i + j),
{
    assert(s.skip(i).skip(j) =~= s.skip(i + j));
}

/// Consumes the literal `l` at position `i`.
#[verifier::loop_isolation(false)]
fn e_p_lit(s: &Vec<char>, i: usize, l: &str) -> (r: Option<usize>)
    requires
        i <= s@.len(),
    ensures
        (match r {
            Some(j) => i <= j <= s@.len() && j == i + l@.len() && p_lit(s@.skip(i as int), l@)
                == Some(s@.skip(j as int)),
            None => p_lit(s@.skip(i as int), l@) is None,
        }),
{
    let n = l.unicode_len();
    if n > s.len() - i {
        return None;
    }
    let mut k: usize = 0;
    while k < n
        invariant
            n == l@.len(),
            i + n <= s@.len(),
            0 <= k <= n,
            forall|m: int| 0 <= m < k ==> s@[i + m] == l@[m],
        decreases n - k,
    {
        if s[i + k] != l.get_char(k) {
            proof {
                let t = s@.skip(i as int);
                assert(t.take(n as int)[k as int] == s@[i + k]);
                assert(t.take(n as int) != l@);
            }
            return None;
        }
        k = k + 1;
    }
    proof {
        let t = s@.skip(i as int);
        assert(t.take(n as int) =~= l@);
        lemma_skip_skip(s@, i as int, n as int);
    }
    Some(i + n)
}

/// Whether `c` is a hexadecimal digit.
fn is_hex_digit(c: char) -> (b: bool)
    ensures
        b == is_hex(c),
{
    let u = c as u32;
    (48 <= u && u <= 57) || (97 <= u && u <= 102) || (65 <= u && u <= 70)
}

/// The value of a hexadecimal digit.
fn hex_digit_value(c: char) -> (v: u32)
    requires
        is_hex(c),
    ensures
        v as int == hex_val(c),
        v < 16,
{
    let u = c as u32;
    if 48 <= u && u <= 57 {
        u - 48
    } else if 97 <= u && u <= 102 {
        u - 87
    } else {
        u - 55
    }
}

/// Consumes the body of a quoted string at position `i`.
fn e_p_str_body(s: &Vec<char>, i: usize) -> (r: Option<(Vec<char>, usize)>)
    requires
        i <= s@.len(),
    ensures
        (match r {
            Some(p) => i <= p.1 <= s@.len() && p_str_body(s@.skip(i as int)) == Some(
                (p.0@, s@.skip(p.1 as int)),
            ),
            None => p_str_body(s@.skip(i as int)) is None,
        }),
    decreases s@.len() - i,
{
    let ghost t = s@.skip(i as int);
    if i == s.len() {
        return None;
    }
    assert(t[0] == s@[i as int]);
    let c = s[i];
    if c == '"' {
        proof {
            lemma_skip_skip(s@, i as int, 1);
        }
        let v: Vec<char> = Vec::new();
        assert(Seq::<char>::empty() =~= v@);
        Some((v, i + 1))
    } else if c == '\\' {
        if i + 1 < s.len() && (s[i + 1] == '"' || s[i + 1] == '\\') {
            assert(t.len() >= 2);
            assert(t[1] == s@[i + 1]);
            proof {
                lemma_skip_skip(s@, i as int, 2);
            }
            match e_p_str_body(s, i + 2) {
                Some((mut v, j)) => {
                    let e = s[i + 1];
                    v.insert(0, e);
                    assert(v@ =~= seq![t[1]] + v@.skip(1));
                    Some((v, j))
                },
                None => None,
            }
        } else if s.len() - i > 5 && s[i + 1] == 'u' && s[i + 2] == '0' && s[i + 3] == '0'
            && is_hex_digit(s[i + 4]) && is_hex_digit(s[i + 5]) {
            assert(t.len() >= 6);
            assert(t[1] == s@[i + 1]);
            assert(t[2] == s@[i + 2]);
            assert(t[3] == s@[i + 3]);
            assert(t[4] == s@[i + 4]);
            assert(t[5] == s@[i + 5]);
            proof {
                lemma_skip_skip(s@, i as int, 6);
            }
            match e_p_str_body(s, i + 6) {
                Some((mut v, j)) => {
                    let code = hex_digit_value(s[i + 4]) * 16 + hex_digit_value(s[i + 5]);
                    let dc = (code as u8) as char;
                    proof {
                        assert(dc as u32 == code);
                        vstd::utf8::char_u32_cast(dc, code);
                        assert((code as char) == dc);
                    }
                    v.insert(0, dc);
                    assert(v@ =~= seq![dc] + v@.skip(1));
                    Some((v, j))
                },
                None => None,
            }
        } else {
            assert(t.len() >= 2 ==> !(t[1] == '"' || t[1] == '\\')) by {
                if i + 1 < s.len() {
                    assert(t[1] == s@[i + 1]);
                }
            }
            assert(!(t.len() >= 6 && t[1] == 'u' && t[2] == '0' && t[3] == '0' && is_hex(t[4])
                && is_hex(t[5]))) by {
                if i + 5 < s.len() {
                    assert(t[1] == s@[i + 1]);
                    assert(t[2] == s@[i + 2]);
                    assert(t[3] == s@[i + 3]);
                    assert(t[4] == s@[i + 4]);
                    assert(t[5] == s@[i + 5]);
                }
            }
            None
        }
    } else {
        proof {
            lemma_skip_skip(s@, i as int, 1);
        }
        match e_p_str_body(s, i + 1) {
            Some((mut v, j)) => {
                v.insert(0, c);
                assert(v@ =~= seq![t[0]] + v@.skip(1));
                Some((v, j))
            },
            None => None,
        }
    }
}

/// Consumes a quoted string at position `i`.
fn e_p_str(s: &Vec<char>, i: usize) -> (r: Option<(Vec<char>, usize)>)
    requires
        i <= s@.len(),
    ensures
        (match r {
            Some(p) => i <= p.1 <= s@.len() && p_str(s@.skip(i as int)) == Some(
                (p.0@, s@.skip(p.1 as int)),
            ),
            None => p_str(s@.skip(i as int)) is None,
        }),
{
    if i < s.len() && s[i] == '"' {
        assert(s@.skip(i as int)[0] == s@[i as int]);
        proof {
            lemma_skip_skip(s@, i as int, 1);
        }
        e_p_str_body(s, i + 1)
    } else {
        assert(s@.skip(i as int).len() > 0 ==> s@.skip(i as int)[0] == s@[i as int]);
        None
    }
}

/// Consumes the longest digit run at position `i`.
fn e_p_digits(s: &Vec<char>, i: usize) -> (r: (Vec<char>, usize))
    requires
        i <= s@.len(),
    ensures
        i <= r.1 <= s@.len(),
        p_digits(s@.skip(i as int)) == (r.0@, s@.skip(r.1 as int)),
    decreases s@.len() - i,
{
    let ghost t = s@.skip(i as int);
    if i < s.len() {
        assert(t[0] == s@[i as int]);
        let c = s[i];
        let u = c as u32;
        if 48 <= u && u <= 57 {
            proof {
                lemma_skip_skip(s@, i as int, 1);
            }
            let (mut d, j) = e_p_digits(s, i + 1);
            d.insert(0, c);
            assert(d@ =~= seq![t[0]] + d@.skip(1));
            return (d, j);
        }
    }
    assert(t.len() > 0 ==> t[0] == s@[i as int]);
    let v: Vec<char> = Vec::new();
    assert(v@ =~= Seq::<char>::empty());
    (v, i)
}

/// The base-ten value of a short digit run.
fn digits_value(ds: &Vec<char>) -> (v: u64)
    requires
        all_digits(ds@),
        ds@.len() <= 10,
    ensures
        v == digits_val(ds@),
{
    proof {
        lemma_pow10_concrete();
    }
    let mut acc: u64 = 0;
    let mut k: usize = 0;
    while k < ds.len()
        invariant
            all_digits(ds@),
            ds@.len() <= 10,
            0 <= k <= ds@.len(),
            acc == digits_val(ds@.take(k as int)),
            0 <= acc < pow10(k as nat),
            pow10(10) == 10000000000,
        decreases ds@.len() - k,
    {
        proof {
            assert(forall|m: int| 0 <= m < k + 1 ==> ds@.take(k as int + 1)[m] == ds@[m]);
            lemma_digits_val_bound(ds@.take(k as int + 1));
            assert(ds@.take(k as int + 1).drop_last() =~= ds@.take(k as int));
            assert(ds@.take(k as int + 1).last() == ds@[k as int]);
            assert(pow10(k as nat + 1) == 10 * pow10(k as nat));
            assert(pow10(k as nat + 1) <= pow10(10)) by {
                assert(pow10(0) == 1);
                assert(pow10(1) == 10);
                assert(pow10(2) == 100);
                assert(pow10(3) == 1000);
                assert(pow10(4) == 10000);
                assert(pow10(5) == 100000);
                assert(pow10(6) == 1000000);
                assert(pow10(7) == 10000000);
                assert(pow10(8) == 100000000);
                assert(pow10(9) == 1000000000);
            }
        }
        let d = (ds[k] as u32 - 48) as u64;
        acc = acc * 10 + d;
        k = k + 1;
    }
    assert(ds@.take(ds@.len() as int) =~= ds@);
    acc
}

proof fn lemma_p_digits_digits(s: Seq<char>)
    ensures
        all_digits(p_digits(s).0),
    decreases s.len(),
{
    if s.len() > 0 && is_digit(s[0]) {
        lemma_p_digits_digits(s.skip(1));
        let p = p_digits(s.skip(1));
        assert(p_digits(s).0 == seq![s[0]] + p.0);
        assert forall|i: int| 0 <= i < p_digits(s).0.len() implies is_digit(
            #[trigger] p_digits(s).0[i],
        ) by {
            if i == 0 {
                assert(p_digits(s).0[0] == s[0]);
            } else {
                assert(p_digits(s).0[i] == p.0[i - 1]);
            }
        }
    }
}

/// Consumes a decimal integer at position `i`.
fn e_p_int(s: &Vec<char>, i: usize) -> (r: Option<(i32, usize)>)
    requires
        i <= s@.len(),
    ensures
        (match r {
            Some(p) => i <= p.1 <= s@.len() && p_int(s@.skip(i as int)) == Some(
                (p.0 as int, s@.skip(p.1 as int)),
            ),
            None => p_int(s@.skip(i as int)) is None,
        }),
{
    let ghost t = s@.skip(i as int);
    let neg = i < s.len() && s[i] == '-';
    assert(t.len() > 0 ==> t[0] == s@[i as int]);
    let start = if neg {
        proof {
            lemma_skip_skip(s@, i as int, 1);
        }
        i + 1
    } else {
        i
    };
    let (ds, j) = e_p_digits(s, start);
    proof {
        let body = if neg { t.skip(1) } else { t };
        assert(p_digits(body) == (ds@, s@.skip(j as int)));
        lemma_p_digits_digits(body);
        assert(all_digits(ds@));
        lemma_digits_val_bound(ds@);
    }
    if ds.len() == 0 || ds.len() > 10 {
        return None;
    }
    let v = digits_value(&ds);
    if neg {
        if v > 2147483648 {
            None
        } else {
            let w: i64 = -(v as i64);
            assert(-2147483648 <= w <= 0);
            Some((w as i32, j))
        }
    } else {
        if v > 2147483647 {
            None
        } else {
            Some((v as i32, j))
        }
    }
}

/// Consumes a boolean word at position `i`.
fn e_p_bool(s: &Vec<char>, i: usize) -> (r: Option<(bool, usize)>)
    requires
        i <= s@.len(),
    ensures
        (match r {
            Some(p) => i <= p.1 <= s@.len() && p_bool(s@.skip(i as int)) == Some(
                (p.0, s@.skip(p.1 as int)),
            ),
            None => p_bool(s@.skip(i as int)) is None,
        }),
{
    match e_p_lit(s, i, "true") {
        Some(j) => Some((true, j)),
        None => match e_p_lit(s, i, "false") {
            Some(j) => Some((false, j)),
            None => None,
        },
    }
}

/// Whether the characters equal the literal.
fn vec_eq_lit(v: &Vec<char>, l: &str) -> (b: bool)
    ensures
        b == (v@ == l@),
{
    let n = l.unicode_len();
    if v.len() != n {
        return false;
    }
    let mut k: usize = 0;
    while k < n
        invariant
            n == l@.len(),
            v@.len() == n,
            0 <= k <= n,
            forall|m: int| 0 <= m < k ==> v@[m] == l@[m],
        decreases n - k,
    {
        if v[k] != l.get_char(k) {
            return false;
        }
        k = k + 1;
    }
    assert(v@ =~= l@);
    true
}

/// Consumes one answer object at position `i`.
fn e_p_answer(s: &Vec<char>, i: usize) -> (r: Option<(Answer, usize)>)
    requires
        i <= s@.len(),
    ensures
        (match r {
            Some(p) => i <= p.1 <= s@.len() && p_answer(s@.skip(i as int)) == Some(
                (p.0@, s@.skip(p.1 as int)),
            ),
            None => p_answer(s@.skip(i as int)) is None,
        }),
{
    match e_p_lit(s, i, "{\"text\":") {
        None => None,
        Some(j1) => match e_p_str(s, j1) {
            None => None,
            Some((tv, j2)) => match e_p_lit(s, j2, ",\"is_correct\":") {
                None => None,
                Some(j3) => match e_p_bool(s, j3) {
                    None => None,
                    Some((b, j4)) => match e_p_lit(s, j4, "}") {
                        None => None,
                        Some(j5) => {
                            let text = chars_to_string(&tv);
                            Some((Answer::new(0, 0, text, b), j5))
                        },
                    },
                },
            },
        },
    }
}

/// Consumes one or more comma-separated answer objects at position `i`.
fn e_p_answer_items(s: &Vec<char>, i: usize) -> (r: Option<(Vec<Answer>, usize)>)
    requires
        i <= s@.len(),
    ensures
        (match r {
            Some(p) => i <= p.1 <= s@.len() && p_answer_items(s@.skip(i as int)) == Some(
                (p.0@.map_values(|a: Answer| a@), s@.skip(p.1 as int)),
            ),
            None => p_answer_items(s@.skip(i as int)) is None,
        }),
    decreases s@.len() - i,
{
    match e_p_answer(s, i) {
        None => None,
        Some((a, j)) => {
            let ghost t = s@.skip(i as int);
            let ghost ta = s@.skip(j as int);
            if j < s.len() && s[j] == ',' {
                assert(ta.len() > 0 && ta[0] == ',');
                if j > i {
                    proof {
                        lemma_skip_skip(s@, j as int, 1);
                    }
                    match e_p_answer_items(s, j + 1) {
                        None => None,
                        Some((mut l, j2)) => {
                            let ghost lv = l@.map_values(|x: Answer| x@);
                            l.insert(0, a);
                            assert(l@.map_values(|x: Answer| x@) =~= seq![a@] + lv);
                            Some((l, j2))
                        },
                    }
                } else {
                    None
                }
            } else {
                assert(ta.len() > 0 ==> ta[0] == s@[j as int]);
                let mut l: Vec<Answer> = Vec::new();
                l.push(a);
                assert(l@.map_values(|x: Answer| x@) =~= seq![a@]);
                Some((l, j))
            }
        },
    }
}

/// Consumes one quiz object at position `i`.
fn e_p_quiz(s: &Vec<char>, i: usize) -> (r: Option<(Quiz, usize)>)
    requires
        i <= s@.len(),
    ensures
        (match r {
            Some(p) => i <= p.1 <= s@.len() && p_quiz(s@.skip(i as int)) == Some(
                (p.0@, s@.skip(p.1 as int)),
            ),
            None => p_quiz(s@.skip(i as int)) is None,
        }),
{
    match e_p_lit(s, i, "{\"id\":") {
        None => None,
        Some(j1) => match e_p_int(s, j1) {
            None => None,
            Some((id, j2)) => match e_p_lit(s, j2, ",\"name\":") {
                None => None,
                Some(j3) => match e_p_str(s, j3) {
                    None => None,
                    Some((nv, j4)) => match e_p_lit(s, j4, "}") {
                        None => None,
                        Some(j5) => {
                            let name = chars_to_string(&nv);
                            Some((Quiz::new(id, name), j5))
                        },
                    },
                },
            },
        },
    }
}

/// Consumes one or more comma-separated quiz objects at position `i`.
fn e_p_quiz_items(s: &Vec<char>, i: usize) -> (r: Option<(Vec<Quiz>, usize)>)
    requires
        i <= s@.len(),
    ensures
        (match r {
            Some(p) => i <= p.1 <= s@.len() && p_quiz_items(s@.skip(i as int)) == Some(
                (p.0@.map_values(|q: Quiz| q@), s@.skip(p.1 as int)),
            ),
            None => p_quiz_items(s@.skip(i as int)) is None,
        }),
    decreases s@.len() - i,
{
    match e_p_quiz(s, i) {
        None => None,
        Some((a, j)) => {
            let ghost ta = s@.skip(j as int);
            if j < s.len() && s[j] == ',' {
                assert(ta.len() > 0 && ta[0] == ',');
                if j > i {
                    proof {
                        lemma_skip_skip(s@, j as int, 1);
                    }
                    match e_p_quiz_items(s, j + 1) {
                        None => None,
                        Some((mut l, j2)) => {
                            let ghost lv = l@.map_values(|x: Quiz| x@);
                            l.insert(0, a);
                            assert(l@.map_values(|x: Quiz| x@) =~= seq![a@] + lv);
                            Some((l, j2))
                        },
                    }
                } else {
                    None
                }
            } else {
                assert(ta.len() > 0 ==> ta[0] == s@[j as int]);
                let mut l: Vec<Quiz> = Vec::new();
                l.push(a);
                assert(l@.map_values(|x: Quiz| x@) =~= seq![a@]);
                Some((l, j))
            }
        },
    }
}

/// Consumes one question object at position `i`.
fn e_p_question(s: &Vec<char>, i: usize) -> (r: Option<(Question, usize)>)
    requires
        i <= s@.len(),
    ensures
        (match r {
            Some(p) => i <= p.1 <= s@.len() && p_question(s@.skip(i as int)) == Some(
                (p.0@, s@.skip(p.1 as int)),
            ),
            None => p_question(s@.skip(i as int)) is None,
        }),
{
    match e_p_lit(s, i, "{\"id\":") {
        None => None,
        Some(j1) => match e_p_int(s, j1) {
            None => None,
            Some((id, j2)) => match e_p_lit(s, j2, ",\"quiz_id\":") {
                None => None,
                Some(j3) => match e_p_int(s, j3) {
                    None => None,
                    Some((qid, j4)) => match e_p_lit(s, j4, ",\"text\":") {
                        None => None,
                        Some(j5) => match e_p_str(s, j5) {
                            None => None,
                            Some((tv, j6)) => match e_p_lit(s, j6, "}") {
                                None => None,
                                Some(j7) => {
                                    let text = chars_to_string(&tv);
                                    Some((Question::new(id, qid, text), j7))
                                },
                            },
                        },
                    },
                },
            },
        },
    }
}

/// Consumes one or more comma-separated question objects at position `i`.
fn e_p_question_items(s: &Vec<char>, i: usize) -> (r: Option<(Vec<Question>, usize)>)
    requires
        i <= s@.len(),
    ensures
        (match r {
            Some(p) => i <= p.1 <= s@.len() && p_question_items(s@.skip(i as int)) == Some(
                (p.0@.map_values(|q: Question| q@), s@.skip(p.1 as int)),
            ),
            None => p_question_items(s@.skip(i as int)) is None,
        }),
    decreases s@.len() - i,
{
    match e_p_question(s, i) {
        None => None,
        Some((a, j)) => {
            let ghost ta = s@.skip(j as int);
            if j < s.len() && s[j] == ',' {
                assert(ta.len() > 0 && ta[0] == ',');
                if j > i {
                    proof {
                        lemma_skip_skip(s@, j as int, 1);
                    }
                    match e_p_question_items(s, j + 1) {
                        None => None,
                        Some((mut l, j2)) => {
                            let ghost lv = l@.map_values(|x: Question| x@);
                            l.insert(0, a);
                            assert(l@.map_values(|x: Question| x@) =~= seq![a@] + lv);
                            Some((l, j2))
                        },
                    }
                } else {
                    None
                }
            } else {
                assert(ta.len() > 0 ==> ta[0] == s@[j as int]);
                let mut l: Vec<Question> = Vec::new();
                l.push(a);
                assert(l@.map_values(|x: Question| x@) =~= seq![a@]);
                Some((l, j))
            }
        },
    }
}

/// Decodes one request from the wire. Never touches the store: the
/// caller maps `UnknownAction` and `Malformed` to their error
/// responses.
pub fn decode_request(input: &str) -> (r: DecodedRequest)
    ensures
        (match r {
            DecodedRequest::Parsed(req) => dec_req(input@) == ReqDecV::Decoded(req@),
            DecodedRequest::UnknownAction => dec_req(input@) == ReqDecV::UnknownTag,
            DecodedRequest::Malformed => dec_req(input@) == ReqDecV::Invalid,
        }),
{
    let s = str_to_chars(input);
    assert(s@.skip(0) =~= s@);
    match e_p_lit(&s, 0, "{\"action\":\"") {
        Some(j1) => match e_p_str_body(&s, j1) {
            Some((tag, j2)) => {
                if vec_eq_lit(&tag, "GetQuizzes") {
                    match e_p_lit(&s, j2, "}") {
                        Some(j3) => if j3 == s.len() {
                            DecodedRequest::Parsed(Request::GetQuizzes)
                        } else {
                            DecodedRequest::Malformed
                        },
                        None => DecodedRequest::Malformed,
                    }
                } else if vec_eq_lit(&tag, "GetQuestionsForQuiz") {
                    match e_p_lit(&s, j2, ",\"quiz_id\":") {
                        Some(j3) => match e_p_int(&s, j3) {
                            Some((v, j4)) => match e_p_lit(&s, j4, "}") {
                                Some(j5) => if j5 == s.len() {
                                    DecodedRequest::Parsed(
                                        Request::GetQuestionsForQuiz { quiz_id: v },
                                    )
                                } else {
                                    DecodedRequest::Malformed
                                },
                                None => DecodedRequest::Malformed,
                            },
                            None => DecodedRequest::Malformed,
                        },
                        None => DecodedRequest::Malformed,
                    }
                } else if vec_eq_lit(&tag, "AddQuiz") {
                    match e_p_lit(&s, j2, ",\"name\":") {
                        Some(j3) => match e_p_str(&s, j3) {
                            Some((nv, j4)) => match e_p_lit(&s, j4, "}") {
                                Some(j5) => if j5 == s.len() {
                                    let name = chars_to_string(&nv);
                                    DecodedRequest::Parsed(Request::AddQuiz { name })
                                } else {
                                    DecodedRequest::Malformed
                                },
                                None => DecodedRequest::Malformed,
                            },
                            None => DecodedRequest::Malformed,
                        },
                        None => DecodedRequest::Malformed,
                    }
                } else if vec_eq_lit(&tag, "AddQuestion") {
                    match e_p_lit(&s, j2, ",\"quiz_id\":") {
                        Some(j3) => match e_p_int(&s, j3) {
                            Some((v, j4)) => match e_p_lit(&s, j4, ",\"text\":") {
                                Some(j5) => match e_p_str(&s, j5) {
                                    Some((tv, j6)) => match e_p_lit(&s, j6, "}") {
                                        Some(j7) => if j7 == s.len() {
                                            let text = chars_to_string(&tv);
                                            DecodedRequest::Parsed(
                                                Request::AddQuestion { quiz_id: v, text },
                                            )
                                        } else {
                                            DecodedRequest::Malformed
                                        },
                                        None => DecodedRequest::Malformed,
                                    },
                                    None => DecodedRequest::Malformed,
                                },
                                None => DecodedRequest::Malformed,
                            },
                            None => DecodedRequest::Malformed,
                        },
                        None => DecodedRequest::Malformed,
                    }
                } else if vec_eq_lit(&tag, "AddAnswers") {
                    match e_p_lit(&s, j2, ",\"question_id\":") {
                        Some(j3) => match e_p_int(&s, j3) {
                            Some((v, j4)) => match e_p_lit(&s, j4, ",\"answers\":[") {
                                Some(j5) => match e_p_lit(&s, j5, "]}") {
                                    Some(j6) => if j6 == s.len() {
                                        let answers: Vec<Answer> = Vec::new();
                                        assert(answers@.map_values(|a: Answer| a@)
                                            =~= Seq::<AnswerV>::empty());
                                        DecodedRequest::Parsed(
                                            Request::AddAnswers { question_id: v, answers },
                                        )
                                    } else {
                                        DecodedRequest::Malformed
                                    },
                                    None => match e_p_answer_items(&s, j5) {
                                        Some((l, j6)) => match e_p_lit(&s, j6, "]}") {
                                            Some(j7) => if j7 == s.len() {
                                                DecodedRequest::Parsed(
                                                    Request::AddAnswers {
                                                        question_id: v,
                                                        answers: l,
                                                    },
                                                )
                                            } else {
                                                DecodedRequest::Malformed
                                            },
                                            None => DecodedRequest::Malformed,
                                        },
                                        None => DecodedRequest::Malformed,
                                    },
                                },
                                None => DecodedRequest::Malformed,
                            },
                            None => DecodedRequest::Malformed,
                        },
                        None => DecodedRequest::Malformed,
                    }
                } else {
                    DecodedRequest::UnknownAction
                }
            },
            None => DecodedRequest::Malformed,
        },
        None => match e_p_lit(&s, 0, "{") {
            Some(j1) => match e_p_str(&s, j1) {
                Some(p) => DecodedRequest::UnknownAction,
                None => DecodedRequest::Malformed,
            },
            None => DecodedRequest::Malformed,
        },
    }
}

/// Decodes one response from the wire, strictly.
pub fn decode_response(input: &str) -> (r: Option<Response>)
    ensures
        (match r {
            Some(resp) => dec_resp(input@) == Some(resp@),
            None => dec_resp(input@) is None,
        }),
{
    let s = str_to_chars(input);
    assert(s@.skip(0) =~= s@);
    match e_p_lit(&s, 0, "{\"Quizzes\":[") {
        Some(j1) => match e_p_lit(&s, j1, "]}") {
            Some(j2) => if j2 == s.len() {
                let list: Vec<Quiz> = Vec::new();
                assert(list@.map_values(|q: Quiz| q@) =~= Seq::<QuizV>::empty());
                Some(Response::Quizzes(list))
            } else {
                None
            },
            None => match e_p_quiz_items(&s, j1) {
                Some((l, j2)) => match e_p_lit(&s, j2, "]}") {
                    Some(j3) => if j3 == s.len() {
                        Some(Response::Quizzes(l))
                    } else {
                        None
                    },
                    None => None,
                },
                None => None,
            },
        },
        None => match e_p_lit(&s, 0, "{\"Questions\":[") {
            Some(j1) => match e_p_lit(&s, j1, "]}") {
                Some(j2) => if j2 == s.len() {
                    let list: Vec<Question> = Vec::new();
                    assert(list@.map_values(|q: Question| q@) =~= Seq::<QuestionV>::empty());
                    Some(Response::Questions(list))
                } else {
                    None
                },
                None => match e_p_question_items(&s, j1) {
                    Some((l, j2)) => match e_p_lit(&s, j2, "]}") {
                        Some(j3) => if j3 == s.len() {
                            Some(Response::Questions(l))
                        } else {
                            None
                        },
                        None => None,
                    },
                    None => None,
                },
            },
            None => match e_p_lit(&s, 0, "{\"Success\":") {
                Some(j1) => match e_p_str(&s, j1) {
                    Some((mv, j2)) => match e_p_lit(&s, j2, "}") {
                        Some(j3) => if j3 == s.len() {
                            let m = chars_to_string(&mv);
                            Some(Response::Success(m))
                        } else {
                            None
                        },
                        None => None,
                    },
                    None => None,
                },
                None => match e_p_lit(&s, 0, "{\"Error\":") {
                    Some(j1) => match e_p_str(&s, j1) {
                        Some((mv, j2)) => match e_p_lit(&s, j2, "}") {
                            Some(j3) => if j3 == s.len() {
                                let m = chars_to_string(&mv);
                                Some(Response::Error(m))
                            } else {
                                None
                            },
                            None => None,
                        },
                        None => None,
                    },
                    None => None,
                },
            },
        },
    }
}

} // verus!
