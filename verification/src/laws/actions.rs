//! Which elements of a tree grant the request, by what its buttons answer.

use vstd::prelude::*;

use crate::actions::{
    self, all_same, allow_actions, asked_in, can_ask, candidates, is_transcript, replies_of,
    sole_action, verdict, ButtonReply,
};
use crate::buttons::{self, chosen_allow, ConsentButtonCandidate};
use crate::laws::buttons::is_refused;
use crate::laws::prompts::stands_below;
use crate::node::{NodeView, Rect};
use crate::refusal::RefusalView;
use crate::surface::{self, is_trusted, prompts};

verus! {

/// Whether a row is a trusted button with a live element and a place on the screen
/// that lists `invoke` among its actions.
pub open spec fn is_pressable(rows: Seq<NodeView>, row: int) -> bool {
    &&& is_trusted(rows, rows[row])
    &&& rows[row].control_type == "Button"@
    &&& rows[row].element_ptr != 0
    &&& rows[row].rect is Some
    &&& exists|a: int|
        0 <= a < rows[row].actions.len() && #[trigger] rows[row].actions[a] == "invoke"@
}

proof fn lemma_pressable_is(rows: Seq<NodeView>, row: int)
    ensures
        actions::is_dialog_button(rows, row) == is_pressable(rows, row),
{
    let offered = rows[row].actions;
    if offered.contains("invoke"@) {
        let a = choose|a: int| 0 <= a < offered.len() && offered[a] == "invoke"@;
        assert(rows[row].actions[a] == "invoke"@);
    }
    if is_pressable(rows, row) {
        let a = choose|a: int|
            0 <= a < rows[row].actions.len() && #[trigger] rows[row].actions[a] == "invoke"@;
        assert(offered[a] == "invoke"@);
    }
}

/// In a prompt every pressable row between its start and its end is asked, once
/// and in order, and no other row.
pub proof fn lemma_pressable_rows_are_asked(rows: Seq<NodeView>, prompt: (int, int))
    ensures
        forall|row: int| #[trigger]
            asked_in(rows, prompt).contains(row) <==> prompt.0 < row < prompt.1 && is_pressable(
                rows,
                row,
            ),
        forall|i: int, j: int|
            0 <= i < j < asked_in(rows, prompt).len() ==> #[trigger] asked_in(rows, prompt)[i]
                < #[trigger] asked_in(rows, prompt)[j],
{
    let asked = asked_in(rows, prompt);
    actions::lemma_dialog_buttons(rows, prompt.0, prompt.1);
    assert forall|row: int| #[trigger] asked.contains(row) <==> prompt.0 < row < prompt.1
        && is_pressable(rows, row) by {
        lemma_pressable_is(rows, row);
        if asked.contains(row) {
            let j = choose|j: int| 0 <= j < asked.len() && asked[j] == row;
            assert(asked[j] == row);
        }
    }
}

/// Whether an element answered that it is a button of Chromium's dialogs.
pub open spec fn is_of_dialog(answer: ButtonReply) -> bool {
    answer matches Ok((class_name, _)) && class_name@ == "MdTextButton"@
}

/// Whether a rectangle has a width and a height.
pub open spec fn has_area(rect: Rect) -> bool {
    rect.0 < rect.2 && rect.1 < rect.3
}

/// Whether answer `j` counts: from a dialog button that has an area.
pub open spec fn counts(
    rows: Seq<NodeView>,
    asked: Seq<int>,
    answers: Seq<ButtonReply>,
    j: int,
) -> bool {
    is_of_dialog(answers[j]) && has_area(rows[asked[j]].rect->0)
}

/// Whether answer `j` counts and no earlier one that counts has the same place.
pub open spec fn is_first_at_its_place(
    rows: Seq<NodeView>,
    asked: Seq<int>,
    answers: Seq<ButtonReply>,
    j: int,
) -> bool {
    &&& counts(rows, asked, answers, j)
    &&& forall|i: int|
        0 <= i < j && #[trigger] counts(rows, asked, answers, i) ==> rows[asked[i]].rect->0
            != rows[asked[j]].rect->0
}

/// Whether a candidate has the element, the place and the focus of answer `j`.
pub open spec fn is_candidate_of(
    rows: Seq<NodeView>,
    asked: Seq<int>,
    answers: Seq<ButtonReply>,
    button: ConsentButtonCandidate,
    j: int,
) -> bool {
    &&& button.element_ptr == rows[asked[j]].element_ptr
    &&& button.rect == rows[asked[j]].rect->0
    &&& button.has_keyboard_focus == (answers[j]->Ok_0).1
}

/// The candidates of a prompt are its dialog buttons with an area, in order, each
/// place once: of several rows at one place the first stands for all.
pub proof fn lemma_candidates_are(
    rows: Seq<NodeView>,
    asked: Seq<int>,
    answers: Seq<ButtonReply>,
) -> (places: Seq<int>)
    requires
        answers.len() <= asked.len(),
        forall|j: int| 0 <= j < answers.len() ==> (#[trigger] answers[j]) is Ok,
    ensures
        places.len() == candidates(rows, asked, answers).len(),
        forall|t: int|
            0 <= t < places.len() ==> 0 <= #[trigger] places[t] < answers.len()
                && is_first_at_its_place(rows, asked, answers, places[t]) && is_candidate_of(
                rows,
                asked,
                answers,
                candidates(rows, asked, answers)[t],
                places[t],
            ),
        forall|t: int, u: int|
            0 <= t < u < places.len() ==> #[trigger] places[t] < #[trigger] places[u],
        forall|j: int|
            0 <= j < answers.len() && #[trigger] is_first_at_its_place(rows, asked, answers, j)
                ==> places.contains(j),
    decreases answers.len(),
{
    if answers.len() == 0 {
        Seq::empty()
    } else {
        let last = answers.len() - 1;
        let front = answers.drop_last();
        assert forall|j: int| 0 <= j < front.len() implies (#[trigger] front[j]) is Ok by {
            assert(front[j] == answers[j]);
        }
        let before = lemma_candidates_are(rows, asked, front);
        let found = candidates(rows, asked, front);
        let all = candidates(rows, asked, answers);
        let rect = rows[asked[last]].rect->0;
        assert(answers[last] is Ok);
        assert forall|j: int| 0 <= j < last implies counts(rows, asked, front, j) == #[trigger]
            counts(rows, asked, answers, j) && is_first_at_its_place(rows, asked, front, j)
            == is_first_at_its_place(rows, asked, answers, j) by {
            lemma_first_in_front(rows, asked, answers, j);
        }
        let taken = exists|t: int| 0 <= t < found.len() && (#[trigger] found[t]).rect == rect;
        assert(counts(rows, asked, answers, last) ==> taken == !is_first_at_its_place(
            rows,
            asked,
            answers,
            last,
        )) by {
            if taken {
                let t = choose|t: int| 0 <= t < found.len() && (#[trigger] found[t]).rect == rect;
                assert(is_candidate_of(rows, asked, front, found[t], before[t]));
                assert(counts(rows, asked, answers, before[t]));
            }
            if counts(rows, asked, answers, last) && !is_first_at_its_place(
                rows,
                asked,
                answers,
                last,
            ) {
                let i = choose|i: int|
                    0 <= i < last && #[trigger] counts(rows, asked, answers, i)
                        && rows[asked[i]].rect->0 == rect;
                let first = lemma_earliest_at_place(rows, asked, answers, i);
                assert(is_first_at_its_place(rows, asked, front, first));
                let t = choose|t: int| 0 <= t < before.len() && before[t] == first;
                assert(before[t] == first);
                assert(found[t].rect == rect);
            }
        }
        let places = if is_first_at_its_place(rows, asked, answers, last) {
            before.push(last)
        } else {
            before
        };
        assert(all == if is_first_at_its_place(rows, asked, answers, last) {
            found.push(
                ConsentButtonCandidate {
                    element_ptr: rows[asked[last]].element_ptr,
                    rect,
                    has_keyboard_focus: (answers[last]->Ok_0).1,
                },
            )
        } else {
            found
        });
        assert forall|t: int| 0 <= t < places.len() implies 0 <= #[trigger] places[t]
            < answers.len() && is_first_at_its_place(rows, asked, answers, places[t])
            && is_candidate_of(rows, asked, answers, all[t], places[t]) by {
            if t < before.len() {
                assert(places[t] == before[t]);
                assert(all[t] == found[t]);
                assert(is_candidate_of(rows, asked, front, found[t], before[t]));
                lemma_first_in_front(rows, asked, answers, before[t]);
                assert(front[before[t]] == answers[before[t]]);
            }
        }
        assert forall|j: int|
            0 <= j < answers.len() && #[trigger] is_first_at_its_place(
                rows,
                asked,
                answers,
                j,
            ) implies places.contains(j) by {
            if j < last {
                lemma_first_in_front(rows, asked, answers, j);
                assert(before.contains(j));
                let t = choose|t: int| 0 <= t < before.len() && before[t] == j;
                assert(places[t] == j);
            } else {
                assert(places.last() == j);
            }
        }
        places
    }
}

proof fn lemma_first_in_front(
    rows: Seq<NodeView>,
    asked: Seq<int>,
    answers: Seq<ButtonReply>,
    j: int,
)
    requires
        0 <= j < answers.len() - 1,
    ensures
        counts(rows, asked, answers.drop_last(), j) == counts(rows, asked, answers, j),
        is_first_at_its_place(rows, asked, answers.drop_last(), j) == is_first_at_its_place(
            rows,
            asked,
            answers,
            j,
        ),
{
    let front = answers.drop_last();
    assert forall|i: int|
        #![trigger counts(rows, asked, front, i)]
        #![trigger counts(rows, asked, answers, i)]
        0 <= i <= j implies counts(rows, asked, front, i) == counts(rows, asked, answers, i) by {
        assert(front[i] == answers[i]);
    }
}

proof fn lemma_earliest_at_place(
    rows: Seq<NodeView>,
    asked: Seq<int>,
    answers: Seq<ButtonReply>,
    i: int,
) -> (first: int)
    requires
        0 <= i < answers.len(),
        counts(rows, asked, answers, i),
    ensures
        0 <= first <= i,
        is_first_at_its_place(rows, asked, answers, first),
        rows[asked[first]].rect->0 == rows[asked[i]].rect->0,
    decreases i,
{
    if is_first_at_its_place(rows, asked, answers, i) {
        i
    } else {
        let h = choose|h: int|
            0 <= h < i && #[trigger] counts(rows, asked, answers, h) && rows[asked[h]].rect->0
                == rows[asked[i]].rect->0;
        lemma_earliest_at_place(rows, asked, answers, h)
    }
}

/// Whether a prompt gives `element`: all its pressable rows answered, and of the
/// candidates this one grants the request.
pub open spec fn gives(
    rows: Seq<NodeView>,
    prompt: (int, int),
    answers: Seq<ButtonReply>,
    element: usize,
) -> bool {
    &&& answers.len() == asked_in(rows, prompt).len()
    &&& forall|j: int| 0 <= j < answers.len() ==> (#[trigger] answers[j]) is Ok
    &&& chosen_allow(candidates(rows, asked_in(rows, prompt), answers)) == Ok::<
        usize,
        RefusalView,
    >(element)
}

/// Whether a prompt gives some element.
pub open spec fn gives_one(
    rows: Seq<NodeView>,
    prompt: (int, int),
    answers: Seq<ButtonReply>,
) -> bool {
    exists|element: usize| #[trigger] gives(rows, prompt, answers, element)
}

/// Whether a prompt is refused: the last element that was asked could not answer
/// and its refusal is passed on, or all answered and no candidate can be chosen.
pub open spec fn refuses(
    rows: Seq<NodeView>,
    prompt: (int, int),
    answers: Seq<ButtonReply>,
    refused: RefusalView,
) -> bool {
    ||| 0 < answers.len() <= asked_in(rows, prompt).len() && (forall|j: int|
        0 <= j < answers.len() - 1 ==> (#[trigger] answers[j]) is Ok) && (answers.last() matches Err(
        why,
    ) && why@ == refused)
    ||| answers.len() == asked_in(rows, prompt).len() && (forall|j: int|
        0 <= j < answers.len() ==> (#[trigger] answers[j]) is Ok) && chosen_allow(
        candidates(rows, asked_in(rows, prompt), answers),
    ) == Err::<usize, RefusalView>(refused)
}

proof fn lemma_verdict_is(rows: Seq<NodeView>, prompt: (int, int), answers: Seq<ButtonReply>)
    requires
        actions::asks_in_order(rows, prompt, answers),
    ensures
        forall|element: usize|
            verdict(rows, prompt, answers) == Ok::<usize, RefusalView>(element) <==> #[trigger]
                gives(rows, prompt, answers, element),
        forall|refused: RefusalView|
            verdict(rows, prompt, answers) == Err::<usize, RefusalView>(refused) <==> #[trigger]
                refuses(rows, prompt, answers, refused),
{
    if answers.len() > 0 {
        let last = answers.len() - 1;
        assert(answers[last] == answers.last());
        if answers.last() is Ok {
            assert forall|j: int| 0 <= j < answers.len() implies (#[trigger] answers[j]) is Ok by {}
        }
    }
}

/// The prompts of a tree are taken in order: each gives an element until one is
/// refused or none is left. Then the outcome is the elements that they gave, all of
/// them in order, or the refusal.
pub proof fn lemma_every_prompt_is_answered(rows: Seq<NodeView>, replies: Seq<Seq<ButtonReply>>)
    requires
        is_transcript(rows, replies),
    ensures
        replies.len() <= prompts(rows).len(),
        forall|k: int|
            0 <= k < replies.len() - 1 ==> gives_one(rows, prompts(rows)[k], #[trigger] replies[k]),
        forall|elements: Seq<usize>|
            #[trigger] is_outcome(allow_actions(rows, replies), elements) <==> replies.len()
                == prompts(rows).len() && elements.len() == prompts(rows).len() && forall|k: int|
                0 <= k < elements.len() ==> #[trigger] gives(
                    rows,
                    prompts(rows)[k],
                    replies[k],
                    elements[k],
                ),
        forall|refused: RefusalView| #[trigger]
            is_failure(allow_actions(rows, replies), refused) <==> replies.len() > 0 && refuses(
                rows,
                prompts(rows)[replies.len() - 1],
                replies.last(),
                refused,
            ),
{
    let all = prompts(rows);
    assert forall|k: int| 0 <= k < replies.len() implies actions::asks_in_order(
        rows,
        all[k],
        #[trigger] replies[k],
    ) by {}
    assert forall|k: int| 0 <= k < replies.len() - 1 implies gives_one(
        rows,
        all[k],
        #[trigger] replies[k],
    ) by {
        lemma_verdict_is(rows, all[k], replies[k]);
        let element = verdict(rows, all[k], replies[k])->Ok_0;
        assert(gives(rows, all[k], replies[k], element));
    }
    let outcome = allow_actions(rows, replies);
    if replies.len() > 0 {
        assert(replies[replies.len() - 1] == replies.last());
        lemma_verdict_is(rows, all[replies.len() - 1], replies.last());
    }
    assert forall|elements: Seq<usize>|
        #[trigger] is_outcome(outcome, elements) <==> replies.len() == all.len()
            && elements.len() == all.len() && forall|k: int|
            0 <= k < elements.len() ==> #[trigger] gives(
                rows,
                all[k],
                replies[k],
                elements[k],
            ) by {
        if is_outcome(outcome, elements) {
            assert forall|k: int| 0 <= k < elements.len() implies #[trigger] gives(
                rows,
                all[k],
                replies[k],
                elements[k],
            ) by {
                lemma_verdict_is(rows, all[k], replies[k]);
                if k == replies.len() - 1 {
                    assert(replies[k] == replies.last());
                }
                assert(verdict(rows, all[k], replies[k]) == Ok::<usize, RefusalView>(elements[k]));
            }
        }
        if replies.len() == all.len() && elements.len() == all.len() && forall|k: int|
            0 <= k < elements.len() ==> #[trigger] gives(rows, all[k], replies[k], elements[k]) {
            assert forall|k: int| 0 <= k < elements.len() implies verdict(
                rows,
                all[k],
                #[trigger] replies[k],
            ) == Ok::<usize, RefusalView>(elements[k]) by {
                assert(gives(rows, all[k], replies[k], elements[k]));
                lemma_verdict_is(rows, all[k], replies[k]);
            }
            if replies.len() > 0 {
                assert(verdict(rows, all[replies.len() - 1], replies[replies.len() - 1]) is Ok);
            }
            assert(outcome is Ok);
            assert(outcome->Ok_0 =~= elements);
        }
    }
}

/// Whether an outcome is these elements.
pub open spec fn is_outcome(
    outcome: Result<Seq<usize>, RefusalView>,
    elements: Seq<usize>,
) -> bool {
    outcome == Ok::<Seq<usize>, RefusalView>(elements)
}

/// Whether an outcome is this refusal.
pub open spec fn is_failure(
    outcome: Result<Seq<usize>, RefusalView>,
    refused: RefusalView,
) -> bool {
    outcome == Err::<Seq<usize>, RefusalView>(refused)
}

/// Every answer is what the element of the pressable row in question gave when it
/// was asked, the rows of each prompt taken from the top.
pub proof fn lemma_answers_come_from_their_elements<F: FnMut(usize) -> ButtonReply>(
    ask: F,
    rows: Seq<NodeView>,
    replies: Seq<Seq<ButtonReply>>,
    k: int,
    j: int,
)
    requires
        is_transcript(rows, replies),
        replies_of(ask, rows, replies),
        0 <= k < replies.len(),
        0 <= j < replies[k].len(),
    ensures
        ({
            let (start, end) = prompts(rows)[k];
            let row = asked_in(rows, prompts(rows)[k])[j];
            &&& j < asked_in(rows, prompts(rows)[k]).len()
            &&& start < row < end
            &&& is_pressable(rows, row)
            &&& call_ensures(ask, (rows[row].element_ptr,), replies[k][j])
        }),
{
    let asked = asked_in(rows, prompts(rows)[k]);
    assert(actions::asks_in_order(rows, prompts(rows)[k], replies[k]));
    lemma_pressable_rows_are_asked(rows, prompts(rows)[k]);
    assert(asked.contains(asked[j]));
}

/// A matcher that can ask the element of every pressable row below the root of a
/// prompt can do all that it has to.
pub proof fn lemma_only_pressable_rows_need_answer<F: FnMut(usize) -> ButtonReply>(
    ask: F,
    rows: Seq<NodeView>,
)
    requires
        forall|root: int, row: int| #[trigger]
            stands_below(rows, root, row) && is_pressable(rows, row) ==> call_requires(
                ask,
                (rows[row].element_ptr,),
            ),
    ensures
        can_ask(ask, rows),
{
    assert forall|element: usize, root: int, row: int| #[trigger]
        actions::is_prompt_button(rows, element, root, row) implies call_requires(
        ask,
        (element,),
    ) by {
        lemma_pressable_is(rows, row);
        assert(stands_below(rows, root, row));
    }
}

/// There is no button exactly where there are no actions, and one where all actions
/// are that one. Two different actions are refused, and so is what already was.
pub proof fn lemma_sole_action_is(actions: Seq<usize>, why: RefusalView)
    ensures
        sole_action(Ok(actions)) == Ok::<Option<usize>, RefusalView>(None) <==> actions.len() == 0,
        forall|element: usize| #[trigger]
            is_sole(sole_action(Ok(actions)), element) <==> actions.len() > 0 && forall|i: int|
                0 <= i < actions.len() ==> #[trigger] actions[i] == element,
        (exists|i: int, j: int|
            0 <= i < actions.len() && 0 <= j < actions.len() && #[trigger] actions[i]
                != #[trigger] actions[j]) <==> is_refused(
            sole_action(Ok(actions)),
            "multiple bound native Chromium consent prompts exposed structural allow actions"@,
        ),
        sole_action(Err(why)) == Err::<Option<usize>, RefusalView>(why),
        all_same(actions) <==> forall|i: int, j: int|
            0 <= i < actions.len() && 0 <= j < actions.len() ==> #[trigger] actions[i]
                == #[trigger] actions[j],
{
    if all_same(actions) {
        assert forall|i: int, j: int|
            0 <= i < actions.len() && 0 <= j < actions.len() implies #[trigger] actions[i]
            == #[trigger] actions[j] by {
            assert(actions[i] == actions[0] && actions[j] == actions[0]);
        }
    } else {
        let i = choose|i: int| 0 <= i < actions.len() && #[trigger] actions[i] != actions[0];
        assert(actions[i] != actions[0]);
    }
}

/// Whether an outcome is one element.
pub open spec fn is_sole(outcome: Result<Option<usize>, RefusalView>, element: usize) -> bool {
    outcome == Ok::<Option<usize>, RefusalView>(Some(element))
}

} // verus!
