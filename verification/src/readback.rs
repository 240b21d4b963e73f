//! A parsed quiz file, as the parse step writes it, reads back in the quiz
//! step as the questions that were written into it.
use vstd::prelude::*;
use crate::output;
use crate::quiz;
use crate::quiz::{CardView, DeckState};
use crate::quiz_parser::QuizTexts;
use crate::text;

verus! {

/// The lines of `x` when a line break follows it: its pieces between line
/// breaks, each without one trailing carriage return.
pub open spec fn terminated_lines(x: Seq<char>) -> Seq<Seq<char>> {
    let p = text::newline_pieces(x);
    Seq::new(p.len(), |i: int| text::strip_cr(p[i]))
}

proof fn lemma_pieces_concat(a: Seq<char>, b: Seq<char>)
    ensures
        text::newline_pieces(a + b) == text::newline_pieces(a).drop_last() + seq![
            text::newline_pieces(a).last() + text::newline_pieces(b)[0],
        ] + text::newline_pieces(b).skip(1),
    decreases b.len(),
{
    text::lemma_newline_pieces_nonempty(a);
    text::lemma_newline_pieces_nonempty(b);
    let pa = text::newline_pieces(a);
    if b.len() == 0 {
        assert(a + b =~= a);
        assert(text::newline_pieces(b) =~= seq![Seq::<char>::empty()]);
        assert(pa.last() + Seq::<char>::empty() =~= pa.last());
        assert(pa.drop_last() + seq![pa.last()] + seq![Seq::<char>::empty()].skip(1) =~= pa);
    } else {
        let b0 = b.drop_last();
        let c = b.last();
        lemma_pieces_concat(a, b0);
        text::lemma_newline_pieces_nonempty(b0);
        assert((a + b).drop_last() =~= a + b0);
        assert((a + b).last() == c);
        let p = text::newline_pieces(a + b0);
        let q = text::newline_pieces(b0);
        if c == '\n' {
            assert(text::newline_pieces(b) == q.push(Seq::<char>::empty()));
            assert(q.push(Seq::<char>::empty())[0] == q[0]);
            assert(q.push(Seq::<char>::empty()).skip(1) =~= q.skip(1).push(Seq::<char>::empty()));
            assert(p.push(Seq::<char>::empty()) =~= pa.drop_last() + seq![pa.last() + q[0]] + q.skip(
                1,
            ).push(Seq::<char>::empty()));
        } else {
            let qb = q.drop_last().push(q.last().push(c));
            assert(text::newline_pieces(b) == qb);
            if q.len() == 1 {
                assert(qb[0] == q[0].push(c));
                assert(qb.skip(1) =~= Seq::<Seq<char>>::empty());
                assert(q.skip(1) =~= Seq::<Seq<char>>::empty());
                assert(p.last() == pa.last() + q[0]);
                assert(p.drop_last().push(p.last().push(c)) =~= pa.drop_last() + seq![
                    pa.last() + q[0].push(c),
                ] + qb.skip(1));
            } else {
                assert(qb[0] == q[0]);
                assert(qb.skip(1) =~= q.skip(1).drop_last().push(q.last().push(c)));
                assert(p.last() == q.last());
                assert(p.drop_last().push(p.last().push(c)) =~= pa.drop_last() + seq![
                    pa.last() + q[0],
                ] + qb.skip(1));
            }
        }
    }
}

/// The lines of `x`, a line break and `y` are the lines of `x` when a line
/// break follows it, then the lines of `y`.
pub proof fn lemma_lines_split(x: Seq<char>, y: Seq<char>)
    ensures
        text::text_lines(x + seq!['\n'] + y) == terminated_lines(x) + text::text_lines(y),
{
    text::lemma_newline_pieces_nonempty(x);
    text::lemma_newline_pieces_nonempty(y);
    let xn = x + seq!['\n'];
    assert(xn.drop_last() =~= x);
    assert(xn.last() == '\n');
    let pxn = text::newline_pieces(xn);
    assert(pxn == text::newline_pieces(x).push(Seq::<char>::empty()));
    lemma_pieces_concat(xn, y);
    let px = text::newline_pieces(x);
    let py = text::newline_pieces(y);
    assert(pxn.drop_last() =~= px);
    assert(Seq::<char>::empty() + py[0] =~= py[0]);
    assert(seq![py[0]] + py.skip(1) =~= py);
    assert(text::newline_pieces(x + seq!['\n'] + y) =~= px + py);
    let p = px + py;
    assert(text::text_lines(x + seq!['\n'] + y) =~= terminated_lines(x) + text::text_lines(y));
}

/// Text that has no line break is a single piece.
pub proof fn lemma_single_piece(s: Seq<char>)
    requires
        !s.contains('\n'),
    ensures
        text::newline_pieces(s) == seq![s],
    decreases s.len(),
{
    if s.len() == 0 {
        assert(s =~= Seq::<char>::empty());
        assert(text::newline_pieces(s) =~= seq![s]);
    } else {
        assert(!s.drop_last().contains('\n')) by {
            if s.drop_last().contains('\n') {
                let k = choose|k: int| 0 <= k < s.drop_last().len() && s.drop_last()[k] == '\n';
                assert(s[k] == '\n');
            }
        }
        lemma_single_piece(s.drop_last());
        assert(s.last() != '\n') by {
            assert(s[s.len() - 1] == s.last());
        }
        assert(s.drop_last().push(s.last()) =~= s);
        assert(seq![s.drop_last()].last() == s.drop_last());
        assert(seq![s.drop_last()].drop_last().push(s.drop_last().push(s.last())) =~= seq![s]);
    }
}

/// A line that the quiz reader takes for a heading.
pub open spec fn is_heading(l: Seq<char>) -> bool {
    text::has_prefix(l, "Question:"@) || text::has_prefix(l, "Possible Answers:"@)
        || text::has_prefix(l, "Key:"@)
}

/// None of the lines `ls` is a heading.
pub open spec fn no_headings(ls: Seq<Seq<char>>) -> bool {
    forall|i: int| 0 <= i < ls.len() ==> !is_heading(#[trigger] ls[i])
}

/// The lines `ls`, each trimmed.
pub open spec fn trimmed_all(ls: Seq<Seq<char>>) -> Seq<Seq<char>> {
    Seq::new(ls.len(), |i: int| text::trimmed(ls[i]))
}

/// The reader's cards so far, with the question under way stored.
pub open spec fn with_pending(st: DeckState) -> Seq<CardView> {
    match st.question {
        Some(q) => st.cards.push((q, st.answers, st.key)),
        None => st.cards,
    }
}

proof fn lemma_run_concat(st: DeckState, a: Seq<Seq<char>>, b: Seq<Seq<char>>)
    ensures
        quiz::deck_run(st, a + b) == quiz::deck_run(quiz::deck_run(st, a), b),
    decreases b.len(),
{
    if b.len() == 0 {
        assert(a + b =~= a);
    } else {
        lemma_run_concat(st, a, b.drop_last());
        assert((a + b).drop_last() =~= a + b.drop_last());
        assert((a + b).last() == b.last());
    }
}

proof fn lemma_run_one(st: DeckState, l: Seq<char>)
    ensures
        quiz::deck_run(st, seq![l]) == quiz::deck_step(st, l),
{
    let ls = seq![l];
    assert(ls.drop_last() =~= Seq::<Seq<char>>::empty());
    assert(quiz::deck_run(st, ls.drop_last()) == st);
    assert(ls.last() == l);
}

proof fn lemma_run_idle(st: DeckState, ls: Seq<Seq<char>>)
    requires
        !st.answering,
        !st.questioning,
        !st.keying,
        no_headings(ls),
    ensures
        quiz::deck_run(st, ls) == st,
    decreases ls.len(),
{
    if ls.len() > 0 {
        assert(no_headings(ls.drop_last())) by {
            assert forall|i: int| 0 <= i < ls.drop_last().len() implies !is_heading(
                #[trigger] ls.drop_last()[i],
            ) by {
                assert(ls.drop_last()[i] == ls[i]);
            }
        }
        lemma_run_idle(st, ls.drop_last());
        assert(!is_heading(ls[ls.len() - 1]));
    }
}

proof fn lemma_run_question(st: DeckState, ls: Seq<Seq<char>>)
    requires
        !st.answering,
        st.questioning,
        no_headings(ls),
        ls.len() > 0,
    ensures
        quiz::deck_run(st, ls) == (DeckState { question: Some(text::trimmed(ls.last())), ..st }),
    decreases ls.len(),
{
    assert(!is_heading(ls[ls.len() - 1]));
    if ls.len() > 1 {
        assert(no_headings(ls.drop_last())) by {
            assert forall|i: int| 0 <= i < ls.drop_last().len() implies !is_heading(
                #[trigger] ls.drop_last()[i],
            ) by {
                assert(ls.drop_last()[i] == ls[i]);
            }
        }
        lemma_run_question(st, ls.drop_last());
    } else {
        assert(ls.drop_last() =~= Seq::<Seq<char>>::empty());
    }
}

proof fn lemma_run_answers(st: DeckState, ls: Seq<Seq<char>>)
    requires
        st.answering,
        no_headings(ls),
    ensures
        quiz::deck_run(st, ls) == (DeckState { answers: st.answers + trimmed_all(ls), ..st }),
    decreases ls.len(),
{
    if ls.len() == 0 {
        assert(st.answers + trimmed_all(ls) =~= st.answers);
    } else {
        assert(!is_heading(ls[ls.len() - 1]));
        assert(no_headings(ls.drop_last())) by {
            assert forall|i: int| 0 <= i < ls.drop_last().len() implies !is_heading(
                #[trigger] ls.drop_last()[i],
            ) by {
                assert(ls.drop_last()[i] == ls[i]);
            }
        }
        lemma_run_answers(st, ls.drop_last());
        assert((st.answers + trimmed_all(ls.drop_last())).push(text::trimmed(ls.last()))
            =~= st.answers + trimmed_all(ls));
    }
}

proof fn lemma_run_key(st: DeckState, ls: Seq<Seq<char>>)
    requires
        !st.answering,
        !st.questioning,
        st.keying,
        no_headings(ls),
        ls.len() > 0,
    ensures
        quiz::deck_run(st, ls) == (DeckState { key: quiz::letter_of(ls[0]), keying: false, ..st }),
{
    assert(ls =~= seq![ls[0]] + ls.skip(1));
    lemma_run_concat(st, seq![ls[0]], ls.skip(1));
    lemma_run_one(st, ls[0]);
    assert(!is_heading(ls[0]));
    let st1 = DeckState { key: quiz::letter_of(ls[0]), keying: false, ..st };
    assert(no_headings(ls.skip(1))) by {
        assert forall|i: int| 0 <= i < ls.skip(1).len() implies !is_heading(
            #[trigger] ls.skip(1)[i],
        ) by {
            assert(ls.skip(1)[i] == ls[i + 1]);
        }
    }
    lemma_run_idle(st1, ls.skip(1));
}

/// Text with no line break, followed by one, is that one line.
proof fn lemma_one_line(s: Seq<char>)
    requires
        !s.contains('\n'),
        s.len() == 0 || s.last() != '\r',
    ensures
        terminated_lines(s) == seq![s],
{
    lemma_single_piece(s);
    assert(terminated_lines(s) =~= seq![s]);
}

proof fn lemma_not_prefix(s: Seq<char>, p: Seq<char>)
    requires
        p.len() > 0,
        s.len() == 0 || s[0] != p[0],
    ensures
        !text::has_prefix(s, p),
{
    if text::has_prefix(s, p) {
        assert(s.subrange(0, p.len() as int)[0] == s[0]);
    }
}

proof fn lemma_is_prefix(s: Seq<char>)
    ensures
        text::has_prefix(s, s),
{
    assert(s.subrange(0, s.len() as int) =~= s);
}

/// The lines that the block of one question is read as.
pub open spec fn block_lines(q: QuizTexts) -> Seq<Seq<char>> {
    seq!["Question:"@] + terminated_lines(text::trimmed(q.0)) + seq!["Possible Answers:"@]
        + terminated_lines(text::trimmed(q.1)) + seq!["Key:"@] + terminated_lines(q.2) + seq![
        "------------------"@,
        Seq::<char>::empty(),
    ]
}

proof fn lemma_literals()
    ensures
        terminated_lines("Question:"@) == seq!["Question:"@],
        terminated_lines("Possible Answers:"@) == seq!["Possible Answers:"@],
        terminated_lines("Key:"@) == seq!["Key:"@],
        terminated_lines("------------------"@) == seq!["------------------"@],
        terminated_lines(Seq::<char>::empty()) == seq![Seq::<char>::empty()],
        "Question:\n"@ == "Question:"@ + seq!['\n'],
        "\nPossible Answers:\n"@ == seq!['\n'] + "Possible Answers:"@ + seq!['\n'],
        "\nKey:\n"@ == seq!['\n'] + "Key:"@ + seq!['\n'],
        "\n------------------\n\n"@ == seq!['\n'] + "------------------"@ + seq!['\n']
            + Seq::<char>::empty() + seq!['\n'],
{
    reveal_strlit("Question:");
    reveal_strlit("Possible Answers:");
    reveal_strlit("Key:");
    reveal_strlit("------------------");
    reveal_strlit("Question:\n");
    reveal_strlit("\nPossible Answers:\n");
    reveal_strlit("\nKey:\n");
    reveal_strlit("\n------------------\n\n");
    lemma_one_line("Question:"@);
    lemma_one_line("Possible Answers:"@);
    lemma_one_line("Key:"@);
    lemma_one_line("------------------"@);
    lemma_one_line(Seq::<char>::empty());
    assert("Question:\n"@ =~= "Question:"@ + seq!['\n']);
    assert("\nPossible Answers:\n"@ =~= seq!['\n'] + "Possible Answers:"@ + seq!['\n']);
    assert("\nKey:\n"@ =~= seq!['\n'] + "Key:"@ + seq!['\n']);
    assert("\n------------------\n\n"@ =~= seq!['\n'] + "------------------"@ + seq!['\n']
        + Seq::<char>::empty() + seq!['\n']);
}

/// The block of a question, then any text, reads as the block's lines, then
/// the lines of that text.
proof fn lemma_block_lines(q: QuizTexts, rest: Seq<char>)
    ensures
        text::text_lines(output::parsed_block(q) + rest) == block_lines(q) + text::text_lines(
            rest,
        ),
{
    lemma_literals();
    let nl = seq!['\n'];
    let h1 = "Question:"@;
    let h2 = "Possible Answers:"@;
    let h3 = "Key:"@;
    let d = "------------------"@;
    let e = Seq::<char>::empty();
    let qt = text::trimmed(q.0);
    let at = text::trimmed(q.1);
    let k = q.2;
    let r7 = e + nl + rest;
    let r6 = d + nl + r7;
    let r5 = k + nl + r6;
    let r4 = h3 + nl + r5;
    let r3 = at + nl + r4;
    let r2 = h2 + nl + r3;
    let r1 = qt + nl + r2;
    let r0 = h1 + nl + r1;
    assert(output::parsed_block(q) + rest =~= r0);
    lemma_lines_split(e, rest);
    lemma_lines_split(d, r7);
    lemma_lines_split(k, r6);
    lemma_lines_split(h3, r5);
    lemma_lines_split(at, r4);
    lemma_lines_split(h2, r3);
    lemma_lines_split(qt, r2);
    lemma_lines_split(h1, r1);
    assert(text::text_lines(r0) =~= block_lines(q) + text::text_lines(rest));
}

/// The lines that the blocks of the questions `qs` are read as.
pub open spec fn quiz_lines(qs: Seq<QuizTexts>) -> Seq<Seq<char>>
    decreases qs.len(),
{
    if qs.len() == 0 {
        Seq::empty()
    } else {
        quiz_lines(qs.drop_last()) + block_lines(qs.last())
    }
}

proof fn lemma_quiz_lines(qs: Seq<QuizTexts>, rest: Seq<char>)
    ensures
        text::text_lines(output::parsed_quiz_text(qs) + rest) == quiz_lines(qs) + text::text_lines(
            rest,
        ),
    decreases qs.len(),
{
    if qs.len() == 0 {
        assert(output::parsed_quiz_text(qs) + rest =~= rest);
        assert(quiz_lines(qs) + text::text_lines(rest) =~= text::text_lines(rest));
    } else {
        let b = output::parsed_block(qs.last());
        assert(output::parsed_quiz_text(qs) + rest =~= output::parsed_quiz_text(qs.drop_last()) + (
        b + rest));
        lemma_quiz_lines(qs.drop_last(), b + rest);
        lemma_block_lines(qs.last(), rest);
        assert(quiz_lines(qs.drop_last()) + (block_lines(qs.last()) + text::text_lines(rest))
            =~= quiz_lines(qs) + text::text_lines(rest));
    }
}

/// A question whose written block reads back unchanged: no line of its
/// trimmed text, of its trimmed answers or of its key starts like a heading.
pub open spec fn readable(q: QuizTexts) -> bool {
    &&& no_headings(terminated_lines(text::trimmed(q.0)))
    &&& no_headings(terminated_lines(text::trimmed(q.1)))
    &&& no_headings(terminated_lines(q.2))
}

/// The card that the block of `q` is read as: the last line of its trimmed
/// text, trimmed; each line of its trimmed answers, trimmed; and the letter
/// of the first line of its key.
pub open spec fn card_of(q: QuizTexts) -> CardView {
    (
        text::trimmed(terminated_lines(text::trimmed(q.0)).last()),
        trimmed_all(terminated_lines(text::trimmed(q.1))),
        quiz::letter_of(terminated_lines(q.2)[0]),
    )
}

proof fn lemma_heading_lines()
    ensures
        text::has_prefix("Question:"@, "Question:"@),
        !text::has_prefix("Possible Answers:"@, "Question:"@),
        text::has_prefix("Possible Answers:"@, "Possible Answers:"@),
        !text::has_prefix("Key:"@, "Question:"@),
        !text::has_prefix("Key:"@, "Possible Answers:"@),
        text::has_prefix("Key:"@, "Key:"@),
        no_headings(seq!["------------------"@, Seq::<char>::empty()]),
{
    reveal_strlit("Question:");
    reveal_strlit("Possible Answers:");
    reveal_strlit("Key:");
    reveal_strlit("------------------");
    lemma_is_prefix("Question:"@);
    lemma_is_prefix("Possible Answers:"@);
    lemma_is_prefix("Key:"@);
    lemma_not_prefix("Possible Answers:"@, "Question:"@);
    lemma_not_prefix("Key:"@, "Question:"@);
    lemma_not_prefix("Key:"@, "Possible Answers:"@);
    let ds = seq!["------------------"@, Seq::<char>::empty()];
    assert forall|i: int| 0 <= i < ds.len() implies !is_heading(#[trigger] ds[i]) by {
        lemma_not_prefix(ds[i], "Question:"@);
        lemma_not_prefix(ds[i], "Possible Answers:"@);
        lemma_not_prefix(ds[i], "Key:"@);
    }
}

/// Reading the block of a readable question from a state that expects no
/// text stores the question under way and leaves the question's card under
/// way, expecting no text again.
proof fn lemma_run_block(st: DeckState, q: QuizTexts)
    requires
        readable(q),
        !st.answering,
        !st.questioning,
        !st.keying,
    ensures
        ({
            let c = card_of(q);
            quiz::deck_run(st, block_lines(q)) == DeckState {
                cards: with_pending(st),
                question: Some(c.0),
                answers: c.1,
                key: c.2,
                answering: false,
                questioning: false,
                keying: false,
            }
        }),
{
    lemma_heading_lines();
    let h1 = seq!["Question:"@];
    let t1 = terminated_lines(text::trimmed(q.0));
    let h2 = seq!["Possible Answers:"@];
    let t2 = terminated_lines(text::trimmed(q.1));
    let h3 = seq!["Key:"@];
    let t3 = terminated_lines(q.2);
    let ds = seq!["------------------"@, Seq::<char>::empty()];
    text::lemma_newline_pieces_nonempty(text::trimmed(q.0));
    text::lemma_newline_pieces_nonempty(q.2);
    let c = card_of(q);

    lemma_run_one(st, "Question:"@);
    let s1 = quiz::deck_run(st, h1);
    assert(s1 == DeckState {
        cards: with_pending(st),
        question: None,
        answers: Seq::empty(),
        answering: false,
        questioning: true,
        keying: false,
        ..st
    });
    lemma_run_concat(st, h1, t1);
    lemma_run_question(s1, t1);
    let s2 = quiz::deck_run(st, h1 + t1);
    assert(s2 == DeckState { question: Some(c.0), ..s1 });
    lemma_run_concat(st, h1 + t1, h2);
    lemma_run_one(s2, "Possible Answers:"@);
    let s3 = quiz::deck_run(st, h1 + t1 + h2);
    assert(s3 == DeckState { answering: true, questioning: false, keying: false, ..s2 });
    lemma_run_concat(st, h1 + t1 + h2, t2);
    lemma_run_answers(s3, t2);
    let s4 = quiz::deck_run(st, h1 + t1 + h2 + t2);
    assert(Seq::<Seq<char>>::empty() + trimmed_all(t2) =~= c.1);
    assert(s4 == DeckState { answers: c.1, ..s3 });
    lemma_run_concat(st, h1 + t1 + h2 + t2, h3);
    lemma_run_one(s4, "Key:"@);
    let s5 = quiz::deck_run(st, h1 + t1 + h2 + t2 + h3);
    assert(s5 == DeckState { answering: false, questioning: false, keying: true, ..s4 });
    lemma_run_concat(st, h1 + t1 + h2 + t2 + h3, t3);
    lemma_run_key(s5, t3);
    let s6 = quiz::deck_run(st, h1 + t1 + h2 + t2 + h3 + t3);
    assert(s6 == DeckState { key: c.2, keying: false, ..s5 });
    lemma_run_concat(st, h1 + t1 + h2 + t2 + h3 + t3, ds);
    lemma_run_idle(s6, ds);
    assert(block_lines(q) == h1 + t1 + h2 + t2 + h3 + t3 + ds);
}

/// The cards of the questions `qs`, one for each.
pub open spec fn cards_of(qs: Seq<QuizTexts>) -> Seq<CardView> {
    Seq::new(qs.len(), |i: int| card_of(qs[i]))
}

proof fn lemma_run_quiz(qs: Seq<QuizTexts>)
    requires
        forall|i: int| 0 <= i < qs.len() ==> readable(#[trigger] qs[i]),
    ensures
        ({
            let st = quiz::deck_lines(quiz_lines(qs));
            &&& !st.answering
            &&& !st.questioning
            &&& !st.keying
            &&& with_pending(st) == cards_of(qs)
        }),
    decreases qs.len(),
{
    if qs.len() == 0 {
        assert(quiz_lines(qs) =~= Seq::<Seq<char>>::empty());
        assert(quiz::deck_run(quiz::deck_start(), Seq::<Seq<char>>::empty()) == quiz::deck_start());
        assert(cards_of(qs) =~= Seq::<CardView>::empty());
    } else {
        let init = qs.drop_last();
        assert forall|i: int| 0 <= i < init.len() implies readable(#[trigger] init[i]) by {
            assert(init[i] == qs[i]);
        }
        lemma_run_quiz(init);
        assert(readable(qs[qs.len() - 1]));
        lemma_run_concat(quiz::deck_start(), quiz_lines(init), block_lines(qs.last()));
        let st0 = quiz::deck_lines(quiz_lines(init));
        lemma_run_block(st0, qs.last());
        assert(cards_of(init).push(card_of(qs.last())) =~= cards_of(qs));
    }
}

/// A parsed quiz file reads back as the questions written into it.
/// When no line of a question's trimmed text, trimmed answers or key starts
/// like a heading (`Question:`, `Possible Answers:`, `Key:`), the quiz reader
/// finds in the text that the parse step writes exactly one card per
/// question, in order, with the question's last text line, its answer lines
/// (each trimmed) and the letter that its key starts with.
pub proof fn law_parsed_quiz_reads_back(qs: Seq<QuizTexts>)
    requires
        forall|i: int| 0 <= i < qs.len() ==> readable(#[trigger] qs[i]),
    ensures
        quiz::deck_of(text::text_lines(output::parsed_quiz_text(qs))) == cards_of(qs),
{
    lemma_quiz_lines(qs, Seq::empty());
    assert(output::parsed_quiz_text(qs) + Seq::<char>::empty() =~= output::parsed_quiz_text(qs));
    text::lemma_newline_pieces_nonempty(Seq::<char>::empty());
    assert(text::text_lines(Seq::<char>::empty()) =~= Seq::<Seq<char>>::empty());
    assert(quiz_lines(qs) + Seq::<Seq<char>>::empty() =~= quiz_lines(qs));
    lemma_run_quiz(qs);
}

} // verus!
