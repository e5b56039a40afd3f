//! What is kept of the tokens that an answer reports.
use crate::perf::logprobs::{
    choices_views, extract_logprobs_by_choice, falling_ranks, in_a_row, is_greatest,
    places_views,
    token_views, tokens_by_choice, validate_and_flatten_choices, MissingChoices, ReportedChoice,
    TokenLogProbs, TokenLogprob,
};
use crate::perf::ordering::{
    arrange, ascending_order, law_arranged, law_order_is_determined, order_of, ranks_before,
};
use std::collections::HashMap;
use vstd::prelude::*;

verus! {

/// Things come out in the order of their ranks: each once, those of lower rank first, and those of
/// equal rank as they were.
pub proof fn law_things_come_out_by_rank<T>(
    things: Vec<T>,
    ranks: &Vec<i64>,
    in_order: Vec<T>,
    order: Vec<usize>,
    i: int,
    j: int,
)
    requires
        things@.len() == ranks@.len(),
        call_ensures(arrange::<T>, (things, ranks), in_order),
        call_ensures(ascending_order, (ranks,), order),
    ensures
        in_order@.len() == things@.len(),
        order@.len() == things@.len(),
        0 <= i < order@.len() ==> order@[i] < things@.len() && in_order@[i]
            == things@[order@[i] as int],
        0 <= i < j < order@.len() ==> order@[i] != order@[j] && (ranks@[order@[i] as int]
            < ranks@[order@[j] as int] || (ranks@[order@[i] as int] == ranks@[order@[j] as int]
            && order@[i] < order@[j])),
{
    assert(vstd::std_specs::vec::spec_vec_len(ranks) == ranks@.len());
    law_arranged(things@, ranks@);
    law_order_is_determined(ranks@, order_of(ranks@), order@);
    if 0 <= i < j < order@.len() {
        assert(ranks_before(ranks@, order@[i], order@[j]));
    }
}

proof fn lemma_last_report(choices: Seq<ReportedChoice>, choice: u32)
    ensures
        tokens_by_choice(choices).contains_key(choice) <==> exists|i: int|
            0 <= i < choices.len() && (#[trigger] choices[i]).index == choice,
    decreases choices.len(),
{
    if choices.len() > 0 {
        let before = choices.drop_last();
        let last = choices.len() - 1;
        lemma_last_report(before, choice);
        if exists|i: int| 0 <= i < before.len() && (#[trigger] before[i]).index == choice {
            let i = choose|i: int| 0 <= i < before.len() && (#[trigger] before[i]).index == choice;
            assert(choices[i].index == choice);
        }
        if choices.last().index == choice {
            assert(choices[last].index == choice);
        }
        if exists|i: int| 0 <= i < choices.len() && (#[trigger] choices[i]).index == choice {
            let i = choose|i: int| 0 <= i < choices.len() && (#[trigger] choices[i]).index == choice;
            if i < last {
                assert(before[i].index == choice);
            }
        }
    }
}

proof fn lemma_report_counts(choices: Seq<ReportedChoice>, at: int)
    requires
        0 <= at < choices.len(),
        forall|i: int| at < i < choices.len() ==> (#[trigger] choices[i]).index != choices[at].index,
    ensures
        tokens_by_choice(choices).contains_key(choices[at].index),
        tokens_by_choice(choices)[choices[at].index] == choices[at].tokens(),
    decreases choices.len(),
{
    if at < choices.len() - 1 {
        let before = choices.drop_last();
        assert forall|i: int| at < i < before.len() implies (#[trigger] before[i]).index
            != before[at].index by {
            assert(choices[i].index != choices[at].index);
        }
        lemma_report_counts(before, at);
        assert(choices[choices.len() - 1].index != choices[at].index);
    }
}

/// The tokens of a choice are those of the last part that reports it, token by token and each with
/// its own alternatives; a choice that nobody reports has none.
pub proof fn law_the_last_report_of_a_choice_counts(
    choices: Vec<ReportedChoice>,
    extracted: HashMap<u32, Vec<TokenLogProbs>>,
    at: int,
    place: int,
    tokens: TokenLogProbs,
    choice: u32,
)
    requires
        call_ensures(extract_logprobs_by_choice, (choices,), extracted),
        0 <= at < choices@.len(),
        forall|i: int|
            at < i < choices@.len() ==> (#[trigger] choices@[i]).index != choices@[at].index,
        choices@[at].content matches Some(content) ==> (0 <= place < content@.len()
            ==> call_ensures(
            TokenLogProbs::new,
            (
                content@[place].selected,
                content@[place].top_logprobs,
                &content@[place].near,
            ),
            tokens,
        )),
    ensures
        extracted@.contains_key(choice) <==> exists|i: int|
            0 <= i < choices@.len() && (#[trigger] choices@[i]).index == choice,
        extracted@.contains_key(choices@[at].index),
        choices@[at].content is None ==> extracted@[choices@[at].index]@.len() == 0,
        choices@[at].content matches Some(content) ==> {
            &&& extracted@[choices@[at].index]@.len() == content@.len()
            &&& 0 <= place < content@.len() ==> extracted@[choices@[at].index]@[place]@ == tokens@
        },
{
    let views = choices_views(extracted@);
    let index = choices@[at].index;
    lemma_last_report(choices@, choice);
    lemma_report_counts(choices@, at);
    assert(views.dom() =~= extracted@.dom());
    assert(extracted@.dom().contains(index) <==> extracted@.contains_key(index));
    assert(extracted@.dom().contains(choice) <==> views.dom().contains(choice));
    assert(views[index] == places_views(extracted@[index]@));
    assert(views[index].len() == extracted@[index]@.len());
    if let Some(content) = choices@[at].content {
        if 0 <= place < content@.len() {
            assert(views[index][place] == extracted@[index]@[place]@);
        }
    }
}

/// The chosen token stands behind all that are as likely or likelier and before all that are less,
/// unless an alternative stands for it.
pub proof fn law_chosen_tokens_stand_behind_their_equals(
    selected: TokenLogprob,
    alternatives: Vec<TokenLogprob>,
    near: &Vec<bool>,
    tokens: TokenLogProbs,
    i: int,
) -> (place: int)
    requires
        call_ensures(TokenLogProbs::new, (selected, alternatives, near), tokens),
        forall|k: int|
            0 <= k < alternatives@.len() ==> !((#[trigger] alternatives@[k]).token@
                == selected.token@ && near@[k]),
    ensures
        0 <= place < tokens@.all.len(),
        tokens@.all[place] == selected@,
        0 <= i < place ==> tokens@.all[i].logprob >= selected.logprob && tokens@.all[i]
            == tokens@.alternatives[i],
        place < i < tokens@.all.len() ==> tokens@.all[i].logprob < selected.logprob
            && tokens@.all[i] == tokens@.alternatives[i - 1],
{
    let views = token_views(alternatives@);
    let ranks = falling_ranks(views);
    assert(vstd::std_specs::vec::spec_vec_len(&alternatives) == alternatives@.len());
    law_arranged(views, ranks);
    let order = order_of(ranks);
    let in_order = crate::perf::logprobs::likeliest_first(views);
    assert(!crate::perf::logprobs::is_listed(selected@, views, near@)) by {
        if crate::perf::logprobs::is_listed(selected@, views, near@) {
            let k = choose|k: int|
                0 <= k < views.len() && (#[trigger] views[k]).token == selected@.token && near@[k];
            assert(alternatives@[k].token@ == selected.token@);
        }
    }
    crate::perf::logprobs::lemma_counted(selected.logprob, in_order);
    let place = crate::perf::logprobs::count_not_below(selected.logprob, in_order);
    if 0 <= i < place {
        assert(selected.logprob <= in_order[i].logprob);
    }
    if place < i < tokens@.all.len() {
        if place < i - 1 {
            assert(ranks_before(ranks, order[place], order[i - 1]));
        }
        assert(in_order[place].logprob < selected.logprob);
    }
    place
}

/// Choices are put in a row by number exactly where none is missing: each stands at its number.
/// Otherwise it is told how many there should be.
pub proof fn law_choices_stand_at_their_number<T>(
    choices: HashMap<u32, T>,
    flattened: Result<Vec<T>, MissingChoices>,
    k: u32,
)
    requires
        call_ensures(validate_and_flatten_choices::<T>, (choices,), flattened),
    ensures
        flattened matches Ok(row) ==> row@.len() == choices@.len(),
        flattened matches Ok(row) ==> (k < row@.len() ==> choices@.contains_key(k)
            && row@[k as int] == choices@[k]),
        flattened matches Err(missing) ==> missing.expected != choices@.len() && (
        choices@.contains_key(k) ==> k < missing.expected) && (missing.found@.contains(k)
            <==> choices@.contains_key(k)),
{
    if let Ok(row) = flattened {
        assert(in_a_row(row@, choices@));
        if k < row@.len() {
            assert(row@[k as int] == choices@[k]);
        }
    }
    if let Err(missing) = flattened {
        let greatest = choose|greatest: u32| #[trigger]
            is_greatest(choices@, greatest) && missing.expected == greatest + 1;
        assert(is_greatest(choices@, greatest));
    }
}

} // verus!
