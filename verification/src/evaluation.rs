//! Rubric-driven evaluation of a generated question by a chat model: the
//! rubric, the look-up of its yes/no questions, and the walk through them
//! as a state machine that the caller drives with the model's replies.
use vstd::prelude::*;
use vstd::string::*;
use crate::text;
use crate::text::{contains, str_eq};

verus! {

/// One yes/no question of a rubric, with the questions that follow a yes and a no.
#[derive(Debug, Clone)]
pub struct Question {
    pub question_id: String,
    pub task: String,
    pub score: String,
    pub action_yes: Option<String>,
    pub action_no: Option<String>,
    pub comments: String,
}

/// A section of a rubric.
#[derive(Debug, Clone)]
pub struct Section {
    pub section_id: String,
    pub title: String,
    pub questions: Vec<Question>,
}

/// An evaluation rubric.
#[derive(Debug, Clone)]
pub struct Rubric {
    pub title: String,
    pub date_assessed: String,
    pub assessed_by: String,
    pub sections: Vec<Section>,
}

/// The questions of the sections `sections`, section after section.
pub open spec fn all_questions(sections: Seq<Section>) -> Seq<Question>
    decreases sections.len(),
{
    if sections.len() == 0 {
        Seq::empty()
    } else {
        all_questions(sections.drop_last()) + sections.last().questions@
    }
}

/// The questions of a rubric, in order.
pub open spec fn rubric_questions(rubric: Rubric) -> Seq<Question> {
    all_questions(rubric.sections@)
}

/// The first of `qs` whose id is `id`.
pub open spec fn question_with_id(qs: Seq<Question>, id: Seq<char>) -> Option<Question>
    decreases qs.len(),
{
    if qs.len() == 0 {
        None
    } else if qs[0].question_id@ == id {
        Some(qs[0])
    } else {
        question_with_id(qs.drop_first(), id)
    }
}

proof fn lemma_with_id_concat(a: Seq<Question>, b: Seq<Question>, id: Seq<char>)
    ensures
        question_with_id(a + b, id) == match question_with_id(a, id) {
            Some(q) => Some(q),
            None => question_with_id(b, id),
        },
    decreases a.len(),
{
    if a.len() == 0 {
        assert(a + b =~= b);
    } else {
        assert((a + b).drop_first() =~= a.drop_first() + b);
        assert((a + b)[0] == a[0]);
        lemma_with_id_concat(a.drop_first(), b, id);
    }
}

proof fn lemma_all_questions_split(sections: Seq<Section>, s: int)
    requires
        0 <= s <= sections.len(),
    ensures
        all_questions(sections) == all_questions(sections.take(s)) + all_questions(
            sections.skip(s),
        ),
    decreases sections.len(),
{
    if s == sections.len() {
        assert(sections.take(s) =~= sections);
        assert(sections.skip(s) =~= Seq::<Section>::empty());
        assert(all_questions(sections) + Seq::<Question>::empty() =~= all_questions(sections));
    } else {
        let dl = sections.drop_last();
        lemma_all_questions_split(dl, s);
        assert(dl.take(s) =~= sections.take(s));
        assert(sections.skip(s).drop_last() =~= dl.skip(s));
        assert(sections.skip(s).last() == sections.last());
        assert(all_questions(sections.take(s)) + all_questions(dl.skip(s))
            + sections.last().questions@ =~= all_questions(sections.take(s)) + (all_questions(
            dl.skip(s),
        ) + sections.last().questions@));
    }
}

fn copy_opt(s: &Option<String>) -> (r: Option<String>)
    ensures
        r == *s,
{
    match s {
        Some(t) => Some(t.clone()),
        None => None,
    }
}

fn copy_question(q: &Question) -> (r: Question)
    ensures
        r == *q,
{
    Question {
        question_id: q.question_id.clone(),
        task: q.task.clone(),
        score: q.score.clone(),
        action_yes: copy_opt(&q.action_yes),
        action_no: copy_opt(&q.action_no),
        comments: q.comments.clone(),
    }
}

/// The first question of the rubric, section after section, whose id is `question_id`.
pub fn find_question_by_id(rubric: &Rubric, question_id: &str) -> (r: Option<Question>)
    ensures
        r == question_with_id(rubric_questions(*rubric), question_id@),
{
    let ghost secs = rubric.sections@;
    let mut s: usize = 0;
    assert(secs.take(0) =~= Seq::<Section>::empty());
    while s < rubric.sections.len()
        invariant
            secs == rubric.sections@,
            s <= secs.len(),
            question_with_id(all_questions(secs.take(s as int)), question_id@) is None,
        decreases secs.len() - s,
    {
        let section = &rubric.sections[s];
        let ghost qs = section.questions@;
        let mut j: usize = 0;
        assert(qs.take(0) =~= Seq::<Question>::empty());
        while j < section.questions.len()
            invariant
                secs == rubric.sections@,
                s < secs.len(),
                section == secs[s as int],
                qs == section.questions@,
                j <= qs.len(),
                question_with_id(all_questions(secs.take(s as int)), question_id@) is None,
                question_with_id(qs.take(j as int), question_id@) is None,
            decreases qs.len() - j,
        {
            let q = &section.questions[j];
            proof {
                lemma_with_id_concat(qs.take(j as int), seq![*q], question_id@);
                assert(qs.take(j + 1) =~= qs.take(j as int) + seq![*q]);
            }
            if str_eq(q.question_id.as_str(), question_id) {
                proof {
                    assert(question_with_id(seq![*q], question_id@) == Some(*q));
                    lemma_all_questions_split(secs, s as int);
                    assert(secs.skip(s as int).drop_first() =~= secs.skip(s + 1));
                    assert(all_questions(secs.skip(s as int)) =~= qs + all_questions(
                        secs.skip(s + 1),
                    )) by {
                        lemma_all_questions_split(secs.skip(s as int), 1);
                        assert(secs.skip(s as int).take(1) =~= seq![secs[s as int]]);
                        assert(seq![secs[s as int]].drop_last() =~= Seq::<Section>::empty());
                        assert(seq![secs[s as int]].last() == secs[s as int]);
                        assert(all_questions(Seq::<Section>::empty()) == Seq::<Question>::empty());
                        assert(Seq::<Question>::empty() + qs =~= qs);
                        assert(all_questions(seq![secs[s as int]]) =~= qs);
                    }
                    assert(qs =~= qs.take(j + 1) + qs.skip(j + 1));
                    lemma_with_id_concat(qs.take(j + 1), qs.skip(j + 1), question_id@);
                    lemma_with_id_concat(qs, all_questions(secs.skip(s + 1)), question_id@);
                    lemma_with_id_concat(
                        all_questions(secs.take(s as int)),
                        all_questions(secs.skip(s as int)),
                        question_id@,
                    );
                }
                return Some(copy_question(q));
            }
            assert(seq![*q].drop_first() =~= Seq::<Question>::empty());
            assert(seq![*q][0] == *q);
            assert(question_with_id(Seq::<Question>::empty(), question_id@) is None);
            assert(question_with_id(seq![*q], question_id@) is None);
            j = j + 1;
        }
        proof {
            assert(qs.take(qs.len() as int) =~= qs);
            assert(secs.take(s + 1).drop_last() =~= secs.take(s as int));
            lemma_with_id_concat(all_questions(secs.take(s as int)), qs, question_id@);
        }
        s = s + 1;
    }
    assert(secs.take(secs.len() as int) =~= secs);
    None
}

/// Who a chat message is from.
#[derive(Debug, Clone, Copy, PartialEq, Eq)]
pub enum Role {
    System,
    User,
    Assistant,
}

/// A message of a chat with a language model.
#[derive(Debug, Clone)]
pub struct ChatMessage {
    pub role: Role,
    pub content: String,
}

/// The sender and text of a message.
pub type MessageView = (Role, Seq<char>);

impl View for ChatMessage {
    type V = MessageView;

    open spec fn view(&self) -> MessageView {
        (self.role, self.content@)
    }
}

/// The views of a sequence of messages.
pub open spec fn message_views(v: Seq<ChatMessage>) -> Seq<MessageView> {
    Seq::new(v.len(), |i: int| v[i]@)
}

fn clone_messages(v: &Vec<ChatMessage>) -> (r: Vec<ChatMessage>)
    ensures
        message_views(r@) == message_views(v@),
{
    let mut r: Vec<ChatMessage> = Vec::new();
    let mut i: usize = 0;
    while i < v.len()
        invariant
            i <= v@.len(),
            r@.len() == i,
            forall|j: int| 0 <= j < i ==> r@[j]@ == v@[j]@,
        decreases v@.len() - i,
    {
        r.push(ChatMessage { role: v[i].role, content: v[i].content.clone() });
        i = i + 1;
    }
    assert(message_views(r@) =~= message_views(v@));
    r
}

/// The system message that opens the evaluation of `question`.
pub open spec fn evaluation_intro(question: Seq<char>) -> Seq<char> {
    "Your job is to evaluate the quality of the following question ("@ + question
        + ") based on the yes/no questions asked to you:"@
}

/// The user message that asks one rubric question.
pub open spec fn rubric_prompt(task: Seq<char>) -> Seq<char> {
    "This is the question being asked about the question being evaluated, respond with a yes or no: "@
        + task
}

/// A reply counts as a yes when it contains `yes` or `Yes`.
pub open spec fn says_yes(reply: Seq<char>) -> bool {
    text::has_substring(reply, "yes"@) || text::has_substring(reply, "Yes"@)
}

/// The text of an optional id, empty when there is none.
pub open spec fn id_or_empty(id: Option<String>) -> Seq<char> {
    match id {
        Some(s) => s@,
        None => Seq::empty(),
    }
}

/// The number of failed calls after which a rubric question is given up.
pub const MAX_TRIES: u32 = 10;

/// What a caller does after a failed call of the chat model.
pub enum RetryAction {
    /// Pause, then make the same call again.
    Wait,
    /// Stop and report the failure.
    GiveUp,
}

/// The decision after the `failures`-th failed call in a row: give up at
/// the `MAX_TRIES`-th, wait and try again before it.
pub fn after_failed_call(failures: u32) -> (r: RetryAction)
    ensures
        r == (if failures >= MAX_TRIES {
            RetryAction::GiveUp
        } else {
            RetryAction::Wait
        }),
{
    if failures >= MAX_TRIES {
        RetryAction::GiveUp
    } else {
        RetryAction::Wait
    }
}

/// The most tokens the model may answer a rubric question with.
pub const RUBRIC_MAX_TOKENS: u32 = 500;

/// A call of the chat model: the model's name, the messages sent and the
/// most tokens of the reply.
pub struct ChatRequest {
    pub model: String,
    pub messages: Vec<ChatMessage>,
    pub max_tokens: u32,
}

/// `req` asks the model `model` with the messages `msgs`, its reply capped
/// at `max_tokens` tokens.
pub open spec fn request_is(
    req: ChatRequest,
    model: Seq<char>,
    msgs: Seq<MessageView>,
    max_tokens: u32,
) -> bool {
    &&& req.model@ == model
    &&& message_views(req.messages@) == msgs
    &&& req.max_tokens == max_tokens
}

/// What the caller is to do next.
pub enum CoherenceAction {
    /// Make this call of the chat model and report the outcome to `step`.
    Ask(ChatRequest),
    /// Pause, then make this call again and report the outcome to `step`.
    RetryAfterPause(ChatRequest),
    /// The walk is over, with this score.
    Done(i32),
}

/// What came back from a call of the chat model.
pub enum ChatOutcome {
    Reply(String),
    Failure,
}

/// The walk through a rubric for one question: the model asked, the
/// conversation so far, the id of the current rubric question, the rubric
/// question whose answer is awaited, the score and the failed tries.
pub struct CoherenceCheck {
    pub model: String,
    pub messages: Vec<ChatMessage>,
    pub current_id: String,
    pub asking: Option<Question>,
    pub score: i32,
    pub tries: u32,
}

impl CoherenceCheck {
    /// While a rubric question is awaited, it has had fewer than `MAX_TRIES`
    /// failed calls and the conversation ends with the user message that
    /// asks it.
    pub open spec fn wf(&self) -> bool {
        self.asking is Some ==> {
            &&& self.tries < MAX_TRIES
            &&& self.messages@.len() > 0
            &&& message_views(self.messages@).last() == (
                Role::User,
                rubric_prompt(self.asking.unwrap().task@),
            )
        }
    }

    /// The call that asks the awaited rubric question: the walk's model, the
    /// whole conversation and a reply of at most `RUBRIC_MAX_TOKENS` tokens.
    fn current_request(&self) -> (r: ChatRequest)
        ensures
            request_is(r, self.model@, message_views(self.messages@), RUBRIC_MAX_TOKENS),
    {
        ChatRequest {
            model: self.model.clone(),
            messages: clone_messages(&self.messages),
            max_tokens: RUBRIC_MAX_TOKENS,
        }
    }

    /// Looks up the current rubric question: when there is one, asks it;
    /// otherwise the walk is over.
    fn look_up(&mut self, rubric: &Rubric) -> (a: CoherenceAction)
        ensures
            final(self).model == old(self).model,
            final(self).current_id == old(self).current_id,
            final(self).score == old(self).score,
            final(self).asking == question_with_id(
                rubric_questions(*rubric),
                old(self).current_id@,
            ),
            final(self).wf(),
            match question_with_id(rubric_questions(*rubric), old(self).current_id@) {
                None => {
                    &&& a == CoherenceAction::Done(old(self).score)
                    &&& message_views(final(self).messages@) == message_views(old(self).messages@)
                    &&& final(self).tries == old(self).tries
                },
                Some(q) => {
                    &&& message_views(final(self).messages@) == message_views(
                        old(self).messages@,
                    ).push((Role::User, rubric_prompt(q.task@)))
                    &&& final(self).tries == 0
                    &&& a matches CoherenceAction::Ask(req) && request_is(
                        req,
                        old(self).model@,
                        message_views(final(self).messages@),
                        RUBRIC_MAX_TOKENS,
                    )
                },
            },
    {
        match find_question_by_id(rubric, self.current_id.as_str()) {
            None => {
                self.asking = None;
                CoherenceAction::Done(self.score)
            },
            Some(q) => {
                let mut content = String::from_str(
                    "This is the question being asked about the question being evaluated, respond with a yes or no: ",
                );
                content.append(q.task.as_str());
                let ghost before = message_views(self.messages@);
                self.messages.push(ChatMessage { role: Role::User, content });
                assert(message_views(self.messages@) =~= before.push(
                    (Role::User, rubric_prompt(q.task@)),
                ));
                self.tries = 0;
                self.asking = Some(q);
                CoherenceAction::Ask(self.current_request())
            },
        }
    }

    /// Starts the evaluation of `question` against `rubric`, after the
    /// messages `history`: the opening system message is added, and the walk
    /// begins at the first question of the first section. Each rubric
    /// question is put to the model `model`.
    pub fn start(question: &str, rubric: &Rubric, model: &str, history: Vec<ChatMessage>) -> (r: (
        CoherenceCheck,
        CoherenceAction,
    ))
        requires
            rubric.sections@.len() > 0,
            rubric.sections@[0].questions@.len() > 0,
        ensures
            r.0.wf(),
            r.0.model@ == model@,
            r.0.score == 0,
            r.0.current_id@ == rubric.sections@[0].questions@[0].question_id@,
            r.0.asking == question_with_id(
                rubric_questions(*rubric),
                rubric.sections@[0].questions@[0].question_id@,
            ),
            match question_with_id(
                rubric_questions(*rubric),
                rubric.sections@[0].questions@[0].question_id@,
            ) {
                None => {
                    &&& r.1 == CoherenceAction::Done(0)
                    &&& message_views(r.0.messages@) == message_views(history@).push(
                        (Role::System, evaluation_intro(question@)),
                    )
                },
                Some(q) => {
                    &&& message_views(r.0.messages@) == message_views(history@).push(
                        (Role::System, evaluation_intro(question@)),
                    ).push((Role::User, rubric_prompt(q.task@)))
                    &&& r.1 matches CoherenceAction::Ask(req) && request_is(
                        req,
                        model@,
                        message_views(r.0.messages@),
                        RUBRIC_MAX_TOKENS,
                    )
                    &&& r.0.tries == 0
                },
            },
    {
        let mut messages = history;
        let mut intro = String::from_str(
            "Your job is to evaluate the quality of the following question (",
        );
        intro.append(question);
        intro.append(") based on the yes/no questions asked to you:");
        let ghost before = message_views(messages@);
        messages.push(ChatMessage { role: Role::System, content: intro });
        assert(message_views(messages@) =~= before.push(
            (Role::System, evaluation_intro(question@)),
        ));
        let current_id = rubric.sections[0].questions[0].question_id.clone();
        let mut check = CoherenceCheck {
            model: model.to_string(),
            messages,
            current_id,
            asking: None,
            score: 0,
            tries: 0,
        };
        let action = check.look_up(rubric);
        (check, action)
    }

    /// Takes the outcome of the call that the last action asked for.
    ///
    /// A reply joins the conversation, and one that says yes adds one to the
    /// score. The current id becomes the awaited question's follow-up for
    /// that answer. When there is a follow-up id and a rubric question has
    /// it, that question is asked next; when the id is empty or no question
    /// has it, the walk is over with the score.
    ///
    /// A failure is retried after a pause with the same call. At the
    /// `MAX_TRIES`-th failure in a row the score becomes -1 and the current
    /// rubric question is looked up and asked again.
    pub fn step(&mut self, rubric: &Rubric, outcome: ChatOutcome) -> (a: CoherenceAction)
        requires
            old(self).wf(),
            old(self).asking is Some,
            outcome matches ChatOutcome::Reply(r) && says_yes(r@) ==> old(self).score < i32::MAX,
        ensures
            final(self).wf(),
            final(self).model == old(self).model,
            match outcome {
                ChatOutcome::Reply(reply) => {
                    let q = old(self).asking.unwrap();
                    let yes = says_yes(reply@);
                    let next = if yes {
                        id_or_empty(q.action_yes)
                    } else {
                        id_or_empty(q.action_no)
                    };
                    let msgs = message_views(old(self).messages@).push(
                        (Role::Assistant, reply@),
                    );
                    &&& final(self).score == if yes {
                        old(self).score + 1
                    } else {
                        old(self).score as int
                    }
                    &&& final(self).current_id@ == next
                    &&& final(self).asking == if next.len() == 0 {
                        None
                    } else {
                        question_with_id(rubric_questions(*rubric), next)
                    }
                    &&& match final(self).asking {
                        None => a == CoherenceAction::Done(final(self).score)
                            && message_views(final(self).messages@) == msgs,
                        Some(nq) => {
                            &&& message_views(final(self).messages@) == msgs.push(
                                (Role::User, rubric_prompt(nq.task@)),
                            )
                            &&& final(self).tries == 0
                            &&& a matches CoherenceAction::Ask(req) && request_is(
                                req,
                                old(self).model@,
                                message_views(final(self).messages@),
                                RUBRIC_MAX_TOKENS,
                            )
                        },
                    }
                },
                ChatOutcome::Failure => {
                    &&& final(self).current_id == old(self).current_id
                    &&& if old(self).tries + 1 < MAX_TRIES {
                        &&& final(self).score == old(self).score
                        &&& final(self).tries == old(self).tries + 1
                        &&& final(self).asking == old(self).asking
                        &&& message_views(final(self).messages@) == message_views(
                            old(self).messages@,
                        )
                        &&& a matches CoherenceAction::RetryAfterPause(req) && request_is(
                            req,
                            old(self).model@,
                            message_views(old(self).messages@),
                            RUBRIC_MAX_TOKENS,
                        )
                    } else {
                        &&& final(self).score == -1
                        &&& final(self).asking == question_with_id(
                            rubric_questions(*rubric),
                            old(self).current_id@,
                        )
                        &&& match question_with_id(
                            rubric_questions(*rubric),
                            old(self).current_id@,
                        ) {
                            None => a == CoherenceAction::Done(-1i32) && message_views(
                                final(self).messages@,
                            ) == message_views(old(self).messages@),
                            Some(nq) => {
                                &&& message_views(final(self).messages@) == message_views(
                                    old(self).messages@,
                                ).push((Role::User, rubric_prompt(nq.task@)))
                                &&& final(self).tries == 0
                                &&& a matches CoherenceAction::Ask(req) && request_is(
                                    req,
                                    old(self).model@,
                                    message_views(final(self).messages@),
                                    RUBRIC_MAX_TOKENS,
                                )
                            },
                        }
                    }
                },
            },
    {
        match outcome {
            ChatOutcome::Reply(reply) => {
                let q = match &self.asking {
                    Some(q) => copy_question(q),
                    None => {
                        return CoherenceAction::Done(self.score);
                    },
                };
                let yes = contains(reply.as_str(), "yes") || contains(reply.as_str(), "Yes");
                let ghost before = message_views(self.messages@);
                self.messages.push(ChatMessage { role: Role::Assistant, content: reply });
                assert(message_views(self.messages@) =~= before.push(
                    (Role::Assistant, reply@),
                ));
                let next = if yes {
                    self.score = self.score + 1;
                    q.action_yes
                } else {
                    q.action_no
                };
                self.current_id = match next {
                    Some(id) => id,
                    None => String::new(),
                };
                if self.current_id.as_str().is_empty() {
                    self.asking = None;
                    CoherenceAction::Done(self.score)
                } else {
                    self.look_up(rubric)
                }
            },
            ChatOutcome::Failure => {
                self.tries = self.tries + 1;
                if self.tries >= MAX_TRIES {
                    self.score = -1;
                    self.look_up(rubric)
                } else {
                    CoherenceAction::RetryAfterPause(self.current_request())
                }
            },
        }
    }
}

/// A reply that holds `yes` or `Yes` anywhere counts as a yes, and one that
/// holds neither counts as a no.
pub proof fn law_yes_replies(before: Seq<char>, after: Seq<char>, reply: Seq<char>)
    ensures
        says_yes(before + "yes"@ + after),
        says_yes(before + "Yes"@ + after),
        !text::has_substring(reply, "yes"@) && !text::has_substring(reply, "Yes"@) ==> !says_yes(
            reply,
        ),
{
    let i = before.len() as int;
    let s1 = before + "yes"@ + after;
    let s2 = before + "Yes"@ + after;
    assert(s1.subrange(i, i + "yes"@.len()) =~= "yes"@);
    assert(s2.subrange(i, i + "Yes"@.len()) =~= "Yes"@);
    assert(text::occurs_at(s1, "yes"@, i));
    assert(text::occurs_at(s2, "Yes"@, i));
}

} // verus!
