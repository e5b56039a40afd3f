//! Where an answer might well have gone another way: places at which several tokens were about as
//! likely. Differences of probabilities are given by rank.
use crate::perf::logprobs::{
    duplicate_tokens, keys_of, token_views, TokenLogProbs, TokenLogprob, TokenView,
};
use crate::perf::ordering::{arrange, arranged, law_arranged, order_of, ranks_before};
use crate::seqs::lemma_take_next;
use std::collections::HashMap;
use vstd::prelude::*;

verus! {

broadcast use vstd::std_specs::hash::group_hash_axioms;

/// The tokens at a place, with what was measured of them.
#[derive(Debug)]
pub struct MeasuredToken {
    pub tokens: TokenLogProbs,
    /// The log probability of the likeliest token less that of the next.
    pub logprob_difference: i64,
    /// The probability of tokens other than these.
    pub probability_remaining: i64,
    /// By how much the probability of each token falls short of that of the likeliest.
    pub shortfalls: Vec<i64>,
}

/// What was measured at a place.
pub struct MeasuredView {
    pub all: Seq<TokenView>,
    pub logprob_difference: i64,
    pub probability_remaining: i64,
    pub shortfalls: Seq<i64>,
}

impl View for MeasuredToken {
    type V = MeasuredView;

    open spec fn view(&self) -> MeasuredView {
        MeasuredView {
            all: self.tokens@.all,
            logprob_difference: self.logprob_difference,
            probability_remaining: self.probability_remaining,
            shortfalls: self.shortfalls@,
        }
    }
}

/// What was measured at some places.
pub open spec fn measured_views(tokens: Seq<MeasuredToken>) -> Seq<MeasuredView> {
    tokens.map_values(|token: MeasuredToken| token@)
}

/// Whether every token at a place was measured.
pub open spec fn is_measured(token: MeasuredView) -> bool {
    token.shortfalls.len() == token.all.len()
}

/// How close the likeliest tokens at a place are.
#[derive(Debug, PartialEq, Eq)]
pub struct PositionCloseness {
    /// Which response it was in.
    pub stream_position: usize,
    /// Where it was in the answer to the choice.
    pub token_position: usize,
    pub logprob_difference: i64,
    /// The probability of the likeliest token less that of the next.
    pub probability_difference: i64,
    pub probability_remaining: i64,
    /// The tokens, the likeliest first.
    pub candidates: Vec<TokenLogprob>,
    /// By how much the probability of each of them falls short of that of the first.
    pub shortfalls: Vec<i64>,
}

/// What is said of a place.
pub struct PositionView {
    pub stream_position: int,
    pub token_position: int,
    pub logprob_difference: i64,
    pub probability_difference: i64,
    pub probability_remaining: i64,
    pub candidates: Seq<TokenView>,
    pub shortfalls: Seq<i64>,
}

impl View for PositionCloseness {
    type V = PositionView;

    open spec fn view(&self) -> PositionView {
        PositionView {
            stream_position: self.stream_position as int,
            token_position: self.token_position as int,
            logprob_difference: self.logprob_difference,
            probability_difference: self.probability_difference,
            probability_remaining: self.probability_remaining,
            candidates: token_views(self.candidates@),
            shortfalls: self.shortfalls@,
        }
    }
}

/// What is said of some places.
pub open spec fn position_views(positions: Seq<PositionCloseness>) -> Seq<PositionView> {
    positions.map_values(|position: PositionCloseness| position@)
}

impl PositionCloseness {
    /// Whether there is a token, and something is said of each.
    pub open spec fn wf(self) -> bool {
        self.candidates@.len() > 0 && self.shortfalls@.len() == self.candidates@.len()
    }
}

/// What is told of a place with more than one token.
pub open spec fn position_of(token: MeasuredView, stream: int, place: int) -> PositionView {
    PositionView {
        stream_position: stream,
        token_position: place,
        logprob_difference: token.logprob_difference,
        probability_difference: token.shortfalls[1],
        probability_remaining: token.probability_remaining,
        candidates: token.all,
        shortfalls: token.shortfalls,
    }
}

/// What is told of the places of a response, from some place of the answer on. Nothing is told of a
/// place with no more than one token.
pub open spec fn positions_of(tokens: Seq<MeasuredView>, stream: int, start: int) -> Seq<
    PositionView,
>
    decreases tokens.len(),
{
    if tokens.len() == 0 {
        Seq::empty()
    } else {
        let before = positions_of(tokens.drop_last(), stream, start);
        if tokens.last().all.len() >= 2 {
            before.push(position_of(tokens.last(), stream, start + tokens.len() - 1))
        } else {
            before
        }
    }
}

/// How many tokens of a choice some responses hold.
pub open spec fn token_count(responses: Seq<Map<u32, Seq<MeasuredView>>>, choice: u32) -> nat
    decreases responses.len(),
{
    if responses.len() == 0 {
        0
    } else {
        token_count(responses.drop_last(), choice) + if responses.last().contains_key(choice) {
            responses.last()[choice].len()
        } else {
            0
        }
    }
}

/// What is told of the places of a choice, in the order of the answer.
pub open spec fn gathered(responses: Seq<Map<u32, Seq<MeasuredView>>>, choice: u32) -> Seq<
    PositionView,
>
    decreases responses.len(),
{
    if responses.len() == 0 {
        Seq::empty()
    } else {
        gathered(responses.drop_last(), choice) + if responses.last().contains_key(choice) {
            positions_of(
                responses.last()[choice],
                responses.len() - 1,
                token_count(responses.drop_last(), choice) as int,
            )
        } else {
            Seq::empty()
        }
    }
}

/// Whether a response speaks of a choice.
pub open spec fn is_reported(responses: Seq<Map<u32, Seq<MeasuredView>>>, choice: u32) -> bool {
    exists|i: int| 0 <= i < responses.len() && (#[trigger] responses[i]).contains_key(choice)
}

/// The ranks by which places are put in order.
pub open spec fn differences(positions: Seq<PositionView>) -> Seq<i64> {
    positions.map_values(|position: PositionView| position.probability_difference)
}

/// Places with the closest first; equally close ones stay in order.
pub open spec fn closest_first(positions: Seq<PositionView>) -> Seq<PositionView> {
    arranged(positions, differences(positions))
}

/// What a response measured of each choice.
pub open spec fn response_view(response: Map<u32, Vec<MeasuredToken>>) -> Map<
    u32,
    Seq<MeasuredView>,
> {
    response.map_values(|tokens: Vec<MeasuredToken>| measured_views(tokens@))
}

/// What some responses measured.
pub open spec fn response_views(responses: Seq<HashMap<u32, Vec<MeasuredToken>>>) -> Seq<
    Map<u32, Seq<MeasuredView>>,
> {
    responses.map_values(|response: HashMap<u32, Vec<MeasuredToken>>| response_view(response@))
}

/// What is known of one choice.
#[derive(Debug, PartialEq, Eq)]
pub struct ChoiceAnalysis {
    pub choice_index: u32,
    /// The places with more than one token, the closest first.
    pub position_closeness: Vec<PositionCloseness>,
    pub positions_analyzed: usize,
}

/// What is known of an answer.
#[derive(Debug)]
pub struct SensitivityAnalysis {
    /// How many responses it came in.
    pub total_responses: usize,
    pub choice_analyses: HashMap<u32, ChoiceAnalysis>,
}

/// How far the answer to a choice has come.
struct Progress {
    next: usize,
    positions: Vec<PositionCloseness>,
}

fn record(token: MeasuredToken, stream: usize, place: usize) -> (position: PositionCloseness)
    requires
        is_measured(token@),
        token@.all.len() >= 2,
    ensures
        position@ == position_of(token@, stream as int, place as int),
{
    let probability_difference: i64 = token.shortfalls[1];
    PositionCloseness {
        stream_position: stream,
        token_position: place,
        logprob_difference: token.logprob_difference,
        probability_difference,
        probability_remaining: token.probability_remaining,
        candidates: token.tokens.into_all_tokens(),
        shortfalls: token.shortfalls,
    }
}

fn advance(progress: Progress, tokens: Vec<MeasuredToken>, stream: usize) -> (after: Progress)
    requires
        progress.next + tokens@.len() <= usize::MAX,
        forall|i: int| 0 <= i < tokens@.len() ==> is_measured((#[trigger] tokens@[i])@),
    ensures
        after.next == progress.next + tokens@.len(),
        position_views(after.positions@) == position_views(progress.positions@) + positions_of(
            measured_views(tokens@),
            stream as int,
            progress.next as int,
        ),
{
    let ghost start = progress.next;
    let ghost before = position_views(progress.positions@);
    let ghost all = tokens@;
    let ghost views = measured_views(tokens@);
    let mut next: usize = progress.next;
    let mut positions = progress.positions;
    assert(position_views(positions@) =~= before + positions_of(
        views.take(0),
        stream as int,
        start as int,
    ));
    for token in iter: tokens
        invariant
            iter.seq() == all,
            views == measured_views(all),
            start + all.len() <= usize::MAX,
            forall|i: int| 0 <= i < all.len() ==> is_measured((#[trigger] all[i])@),
            next == start + iter.index(),
            position_views(positions@) == before + positions_of(
                views.take(iter.index() as int),
                stream as int,
                start as int,
            ),
    {
        let ghost at = iter.index() as int;
        let ghost earlier = positions@;
        let ghost given = token@;
        proof {
            assert(token == all[at]);
            assert(views[at] == given);
            lemma_take_next(views, at);
        }
        if token.tokens.all_tokens().len() >= 2 {
            positions.push(record(token, stream, next));
            assert(position_views(positions@) =~= position_views(earlier).push(
                position_of(given, stream as int, next as int),
            ));
            assert(position_views(positions@) =~= before + positions_of(
                views.take(at + 1),
                stream as int,
                start as int,
            ));
        }
        next += 1;
    }
    assert(views.take(all.len() as int) =~= views);
    Progress { next, positions }
}

/// Whether what is known of a choice fits the responses so far.
spec fn keeps_up(
    progress: Map<u32, Progress>,
    responses: Seq<Map<u32, Seq<MeasuredView>>>,
    choice: u32,
) -> bool {
    &&& progress.contains_key(choice) <==> is_reported(responses, choice)
    &&& progress.contains_key(choice) ==> {
        &&& progress[choice].next == token_count(responses, choice)
        &&& position_views(progress[choice].positions@) == gathered(responses, choice)
    }
}

/// Of a choice that was not reported nothing is known.
proof fn lemma_unreported(responses: Seq<Map<u32, Seq<MeasuredView>>>, choice: u32)
    requires
        !is_reported(responses, choice),
    ensures
        token_count(responses, choice) == 0,
        gathered(responses, choice) == Seq::<PositionView>::empty(),
    decreases responses.len(),
{
    if responses.len() > 0 {
        let last = responses.len() - 1;
        assert(!responses[last].contains_key(choice));
        assert forall|i: int| 0 <= i < last implies !(
        #[trigger] responses.drop_last()[i]).contains_key(choice) by {
            assert(!responses[i].contains_key(choice));
        }
        lemma_unreported(responses.drop_last(), choice);
        assert(gathered(responses, choice) =~= Seq::empty());
    }
}

/// One response more.
proof fn lemma_next_response(
    responses: Seq<Map<u32, Seq<MeasuredView>>>,
    next: Map<u32, Seq<MeasuredView>>,
    choice: u32,
)
    ensures
        is_reported(responses.push(next), choice) <==> is_reported(responses, choice)
            || next.contains_key(choice),
        token_count(responses.push(next), choice) == token_count(responses, choice)
            + if next.contains_key(choice) {
            next[choice].len()
        } else {
            0
        },
        gathered(responses.push(next), choice) == gathered(responses, choice)
            + if next.contains_key(choice) {
            positions_of(
                next[choice],
                responses.len() as int,
                token_count(responses, choice) as int,
            )
        } else {
            Seq::empty()
        },
{
    let longer = responses.push(next);
    assert(longer.drop_last() =~= responses);
    assert(longer.last() == next);
    if is_reported(responses, choice) {
        let i = choose|i: int|
            0 <= i < responses.len() && (#[trigger] responses[i]).contains_key(choice);
        assert(longer[i].contains_key(choice));
    }
    if next.contains_key(choice) {
        assert(longer[responses.len() as int].contains_key(choice));
    }
    if is_reported(longer, choice) && !next.contains_key(choice) {
        let i = choose|i: int| 0 <= i < longer.len() && (#[trigger] longer[i]).contains_key(choice);
        assert(responses[i].contains_key(choice));
    }
}

/// Takes up one response.
fn take_response(
    progress: &mut HashMap<u32, Progress>,
    response: HashMap<u32, Vec<MeasuredToken>>,
    stream: usize,
    earlier: Ghost<Seq<Map<u32, Seq<MeasuredView>>>>,
)
    requires
        earlier@.len() == stream,
        forall|choice: u32| #[trigger] keeps_up(old(progress)@, earlier@, choice),
        forall|choice: u32, i: int|
            response@.contains_key(choice) && 0 <= i < response@[choice]@.len() ==> is_measured(
                (#[trigger] response@[choice]@[i])@,
            ),
        forall|choice: u32| #[trigger]
            response@.contains_key(choice) ==> token_count(earlier@, choice)
                + response@[choice]@.len() <= usize::MAX,
    ensures
        forall|choice: u32| #[trigger]
            keeps_up(final(progress)@, earlier@.push(response_view(response@)), choice),
{
    let choices = keys_of(&response);
    let mut response = response;
    let ghost given = response@;
    let ghost view = response_view(given);
    let ghost later = earlier@.push(view);
    assert forall|i: int| 0 <= i < choices@.len() implies given.contains_key(
        #[trigger] choices@[i],
    ) by {
        assert(choices@.contains(choices@[i]));
    }
    let mut index: usize = 0;
    while index < choices.len()
        invariant
            index <= choices@.len(),
            earlier@.len() == stream,
            view == response_view(given),
            later == earlier@.push(view),
            choices@.no_duplicates(),
            forall|choice: u32| #[trigger]
                choices@.contains(choice) <==> given.contains_key(choice),
            forall|i: int|
                index <= i < choices@.len() ==> response@.contains_key(#[trigger] choices@[i])
                    && response@[choices@[i]] == given[choices@[i]],
            forall|choice: u32, i: int|
                given.contains_key(choice) && 0 <= i < given[choice]@.len() ==> is_measured(
                    (#[trigger] given[choice]@[i])@,
                ),
            forall|choice: u32| #[trigger]
                given.contains_key(choice) ==> token_count(earlier@, choice)
                    + given[choice]@.len() <= usize::MAX,
            forall|choice: u32|
                choices@.take(index as int).contains(choice) ==> #[trigger] keeps_up(
                    progress@,
                    later,
                    choice,
                ),
            forall|choice: u32|
                !choices@.take(index as int).contains(choice) ==> #[trigger] keeps_up(
                    progress@,
                    earlier@,
                    choice,
                ),
        decreases choices@.len() - index,
    {
        let choice: u32 = choices[index];
        let ghost before = progress@;
        proof {
            assert(choices@.contains(choice));
            assert(!choices@.take(index as int).contains(choice));
            assert(keeps_up(progress@, earlier@, choice));
            lemma_next_response(earlier@, view, choice);
            if !is_reported(earlier@, choice) {
                lemma_unreported(earlier@, choice);
            }
            lemma_take_next(choices@, index as int);
        }
        let known = match progress.remove(&choice) {
            Some(known) => known,
            None => Progress { next: 0, positions: Vec::new() },
        };
        assert(position_views(known.positions@) =~= gathered(earlier@, choice));
        if let Some(tokens) = response.remove(&choice) {
            assert(tokens == given[choice]);
            assert forall|i: int| 0 <= i < tokens@.len() implies is_measured(
                (#[trigger] tokens@[i])@,
            ) by {
                assert(given.contains_key(choice));
                assert(is_measured(given[choice]@[i]@));
            }
            progress.insert(choice, advance(known, tokens, stream));
        }
        proof {
            assert(view[choice] == measured_views(given[choice]@));
            assert(keeps_up(progress@, later, choice));
            assert forall|other: u32| choices@.take(
                index + 1,
            ).contains(other) implies #[trigger] keeps_up(progress@, later, other) by {
                crate::seqs::lemma_push_contains(choices@.take(index as int), choice, other);
                if other != choice {
                    assert(keeps_up(before, later, other));
                }
            }
            assert forall|other: u32| !choices@.take(
                index + 1,
            ).contains(other) implies #[trigger] keeps_up(progress@, earlier@, other) by {
                crate::seqs::lemma_push_contains(choices@.take(index as int), choice, other);
                assert(keeps_up(before, earlier@, other));
            }
            assert forall|i: int| index + 1 <= i < choices@.len() implies response@.contains_key(
                #[trigger] choices@[i],
            ) && response@[choices@[i]] == given[choices@[i]] by {
                assert(choices@[i] != choices@[index as int]);
            }
        }
        index += 1;
    }
    proof {
        assert(choices@.take(index as int) =~= choices@);
        assert forall|choice: u32| #[trigger] keeps_up(progress@, later, choice) by {
            lemma_next_response(earlier@, view, choice);
            if !choices@.contains(choice) {
                assert(keeps_up(progress@, earlier@, choice));
                assert(gathered(later, choice) =~= gathered(earlier@, choice));
            }
        }
    }
}

/// Whether every token in some responses was measured.
pub open spec fn all_measured(responses: Seq<Map<u32, Seq<MeasuredView>>>) -> bool {
    forall|r: int, choice: u32, i: int|
        0 <= r < responses.len() && responses[r].contains_key(choice) && 0 <= i
            < responses[r][choice].len() ==> is_measured(#[trigger] responses[r][choice][i])
}

/// Fewer responses hold no more tokens.
proof fn lemma_token_count_grows(
    responses: Seq<Map<u32, Seq<MeasuredView>>>,
    choice: u32,
    fewer: int,
)
    requires
        0 <= fewer <= responses.len(),
    ensures
        token_count(responses.take(fewer), choice) <= token_count(responses, choice),
    decreases responses.len() - fewer,
{
    if fewer < responses.len() {
        lemma_take_next(responses, fewer);
        lemma_next_response(responses.take(fewer), responses[fewer], choice);
        lemma_token_count_grows(responses, choice, fewer + 1);
    } else {
        assert(responses.take(fewer) =~= responses);
    }
}

/// Whether a place has several tokens, and something is said of each.
pub open spec fn is_open(position: PositionView) -> bool {
    position.candidates.len() >= 2 && position.shortfalls.len() == position.candidates.len()
}

proof fn lemma_positions_open(tokens: Seq<MeasuredView>, stream: int, start: int)
    requires
        forall|i: int| 0 <= i < tokens.len() ==> is_measured(#[trigger] tokens[i]),
    ensures
        forall|i: int|
            0 <= i < positions_of(tokens, stream, start).len() ==> is_open(
                #[trigger] positions_of(tokens, stream, start)[i],
            ),
    decreases tokens.len(),
{
    if tokens.len() > 0 {
        assert(is_measured(tokens[tokens.len() - 1]));
        let shorter = tokens.drop_last();
        assert forall|i: int| 0 <= i < shorter.len() implies is_measured(#[trigger] shorter[i]) by {
            assert(is_measured(tokens[i]));
        }
        lemma_positions_open(shorter, stream, start);
        let before = positions_of(shorter, stream, start);
        assert forall|i: int| 0 <= i < positions_of(tokens, stream, start).len() implies is_open(
            #[trigger] positions_of(tokens, stream, start)[i],
        ) by {
            if i < before.len() {
                assert(is_open(before[i]));
            }
        }
    }
}

/// Only places with several tokens are told of.
pub proof fn law_told_places_are_open(
    responses: Seq<Map<u32, Seq<MeasuredView>>>,
    choice: u32,
    place: int,
)
    requires
        all_measured(responses),
        0 <= place < gathered(responses, choice).len(),
    ensures
        is_open(gathered(responses, choice)[place]),
    decreases responses.len(),
{
    let shorter = responses.drop_last();
    let last = responses.len() - 1;
    assert(all_measured(shorter)) by {
        assert forall|r: int, other: u32, i: int|
            0 <= r < shorter.len() && shorter[r].contains_key(other) && 0 <= i
                < shorter[r][other].len() implies is_measured(
            #[trigger] shorter[r][other][i],
        ) by {
            assert(is_measured(responses[r][other][i]));
        }
    }
    if place < gathered(shorter, choice).len() {
        law_told_places_are_open(shorter, choice, place);
    } else {
        let tokens = responses[last][choice];
        assert forall|i: int| 0 <= i < tokens.len() implies is_measured(#[trigger] tokens[i]) by {
            assert(is_measured(responses[last][choice][i]));
        }
        lemma_positions_open(tokens, last, token_count(shorter, choice) as int);
        assert(gathered(responses, choice)[place] == positions_of(
            tokens,
            last,
            token_count(shorter, choice) as int,
        )[place - gathered(shorter, choice).len()]);
    }
}

impl SensitivityAnalysis {
    /// Whether every place has a token, and something is said of each.
    pub open spec fn wf(self) -> bool {
        forall|choice: u32, i: int|
            self.choice_analyses@.contains_key(choice) && 0 <= i
                < self.choice_analyses@[choice].position_closeness@.len() ==> (
            #[trigger] self.choice_analyses@[choice].position_closeness@[i]).wf()
    }
}

/// Whether an analysis is that of some responses: it speaks of the choices they speak of, and tells
/// of their places with several tokens, the closest first.
pub open spec fn is_analysis(
    analysis: SensitivityAnalysis,
    responses: Seq<Map<u32, Seq<MeasuredView>>>,
) -> bool {
    &&& analysis.total_responses == responses.len()
    &&& forall|choice: u32| #[trigger]
        analysis.choice_analyses@.contains_key(choice) <==> is_reported(responses, choice)
    &&& forall|choice: u32| #[trigger]
        analysis.choice_analyses@.contains_key(choice) ==> is_choice_analysis(
            analysis.choice_analyses@[choice],
            responses,
            choice,
        )
}

/// Whether what is known of a choice is what some responses say.
pub open spec fn is_choice_analysis(
    analysis: ChoiceAnalysis,
    responses: Seq<Map<u32, Seq<MeasuredView>>>,
    choice: u32,
) -> bool {
    &&& analysis.choice_index == choice
    &&& analysis.positions_analyzed == gathered(responses, choice).len()
    &&& position_views(analysis.position_closeness@) == closest_first(gathered(responses, choice))
}

fn ranks_of(positions: &Vec<PositionCloseness>) -> (ranks: Vec<i64>)
    ensures
        ranks@ == differences(position_views(positions@)),
{
    let mut ranks: Vec<i64> = Vec::new();
    let mut index: usize = 0;
    while index < positions.len()
        invariant
            index <= positions@.len(),
            ranks@ =~= differences(position_views(positions@)).take(index as int),
        decreases positions@.len() - index,
    {
        ranks.push(positions[index].probability_difference);
        index += 1;
    }
    assert(ranks@ =~= differences(position_views(positions@)));
    ranks
}

/// Puts the places of a choice in order.
fn finish(
    choice: u32,
    positions: Vec<PositionCloseness>,
    responses: Ghost<Seq<Map<u32, Seq<MeasuredView>>>>,
) -> (analysis: ChoiceAnalysis)
    requires
        all_measured(responses@),
        position_views(positions@) == gathered(responses@, choice),
    ensures
        is_choice_analysis(analysis, responses@, choice),
        forall|i: int|
            0 <= i < analysis.position_closeness@.len() ==> (
            #[trigger] analysis.position_closeness@[i]).wf(),
{
    let positions_analyzed: usize = positions.len();
    let ranks = ranks_of(&positions);
    let ghost given = positions@;
    let position_closeness = arrange(positions, &ranks);
    proof {
        law_arranged(given, ranks@);
        let order = order_of(ranks@);
        assert(position_views(position_closeness@) =~= closest_first(
            gathered(responses@, choice),
        ));
        assert forall|i: int| 0 <= i < position_closeness@.len() implies (
        #[trigger] position_closeness@[i]).wf() by {
            let from = order[i] as int;
            law_told_places_are_open(responses@, choice, from);
            assert(position_closeness@[i] == given[from]);
            assert(position_views(given)[from] == given[from]@);
            assert(token_views(given[from].candidates@).len() == given[from].candidates@.len());
        }
    }
    ChoiceAnalysis { choice_index: choice, position_closeness, positions_analyzed }
}

/// Looks for places at which an answer might have gone another way.
pub fn analyze_logprob_sensitivity(
    responses: Vec<HashMap<u32, Vec<MeasuredToken>>>,
) -> (analysis: SensitivityAnalysis)
    requires
        all_measured(response_views(responses@)),
        forall|choice: u32| #[trigger]
            token_count(response_views(responses@), choice) <= usize::MAX,
    ensures
        is_analysis(analysis, response_views(responses@)),
        analysis.wf(),
{
    let total_responses: usize = responses.len();
    let ghost all = responses@;
    let ghost views = response_views(responses@);
    let mut progress: HashMap<u32, Progress> = HashMap::new();
    let mut stream: usize = 0;
    for response in iter: responses
        invariant
            iter.seq() == all,
            views == response_views(all),
            all.len() == total_responses,
            all_measured(views),
            forall|choice: u32| #[trigger] token_count(views, choice) <= usize::MAX,
            stream == iter.index(),
            forall|choice: u32| #[trigger]
                keeps_up(progress@, views.take(iter.index() as int), choice),
    {
        let ghost at = iter.index() as int;
        proof {
            assert(response == all[at]);
            assert(views[at] == response_view(response@));
            lemma_take_next(views, at);
            assert forall|choice: u32, i: int|
                response@.contains_key(choice) && 0 <= i
                    < response@[choice]@.len() implies is_measured(
                (#[trigger] response@[choice]@[i])@,
            ) by {
                assert(is_measured(views[at][choice][i]));
            }
            assert forall|choice: u32| #[trigger] response@.contains_key(choice) implies token_count(
                views.take(at),
                choice,
            ) + response@[choice]@.len() <= usize::MAX by {
                assert(views[at].contains_key(choice));
                lemma_next_response(views.take(at), views[at], choice);
                lemma_token_count_grows(views, choice, at + 1);
                assert(token_count(views, choice) <= usize::MAX);
            }
        }
        take_response(&mut progress, response, stream, Ghost(views.take(at)));
        stream += 1;
    }
    assert(views.take(all.len() as int) =~= views);
    let choices = keys_of(&progress);
    let mut choice_analyses: HashMap<u32, ChoiceAnalysis> = HashMap::new();
    let ghost known = progress@;
    assert forall|i: int| 0 <= i < choices@.len() implies known.contains_key(
        #[trigger] choices@[i],
    ) by {
        assert(choices@.contains(choices@[i]));
    }
    let mut index: usize = 0;
    while index < choices.len()
        invariant
            index <= choices@.len(),
            all_measured(views),
            choices@.no_duplicates(),
            forall|choice: u32| #[trigger] keeps_up(known, views, choice),
            forall|i: int|
                index <= i < choices@.len() ==> progress@.contains_key(#[trigger] choices@[i])
                    && progress@[choices@[i]] == known[choices@[i]],
            forall|i: int|
                0 <= i < choices@.len() ==> known.contains_key(#[trigger] choices@[i]),
            forall|choice: u32| #[trigger]
                choice_analyses@.contains_key(choice) <==> choices@.take(index as int).contains(
                    choice,
                ),
            forall|choice: u32| #[trigger]
                choice_analyses@.contains_key(choice) ==> is_choice_analysis(
                    choice_analyses@[choice],
                    views,
                    choice,
                ),
            forall|choice: u32, i: int|
                choice_analyses@.contains_key(choice) && 0 <= i
                    < choice_analyses@[choice].position_closeness@.len() ==> (
                #[trigger] choice_analyses@[choice].position_closeness@[i]).wf(),
        decreases choices@.len() - index,
    {
        let choice: u32 = choices[index];
        proof {
            assert(keeps_up(known, views, choice));
            lemma_take_next(choices@, index as int);
            assert forall|other: u32| choices@.take(index + 1).contains(other) <==> choices@.take(
                index as int,
            ).contains(other) || other == choice by {
                crate::seqs::lemma_push_contains(choices@.take(index as int), choice, other);
            }
        }
        if let Some(found) = progress.remove(&choice) {
            choice_analyses.insert(choice, finish(choice, found.positions, Ghost(views)));
        }
        proof {
            assert forall|i: int| index + 1 <= i < choices@.len() implies progress@.contains_key(
                #[trigger] choices@[i],
            ) && progress@[choices@[i]] == known[choices@[i]] by {
                assert(choices@[i] != choices@[index as int]);
            }
        }
        index += 1;
    }
    proof {
        assert(choices@.take(index as int) =~= choices@);
        assert forall|choice: u32| #[trigger]
            choice_analyses@.contains_key(choice) <==> is_reported(views, choice) by {
            assert(keeps_up(known, views, choice));
            assert(choices@.contains(choice) <==> known.contains_key(choice));
        }
    }
    SensitivityAnalysis { total_responses, choice_analyses }
}

/// The places of a choice come with the closest first.
pub proof fn law_closest_come_first(
    responses: Seq<Map<u32, Seq<MeasuredView>>>,
    choice: u32,
    first: int,
    second: int,
)
    requires
        gathered(responses, choice).len() <= usize::MAX,
        0 <= first < second < gathered(responses, choice).len(),
    ensures
        closest_first(gathered(responses, choice))[first].probability_difference <= closest_first(
            gathered(responses, choice),
        )[second].probability_difference,
{
    let positions = gathered(responses, choice);
    let ranks = differences(positions);
    law_arranged(positions, ranks);
    assert(ranks_before(ranks, order_of(ranks)[first], order_of(ranks)[second]));
}

/// The places of one choice do not depend on what is reported of others.
pub proof fn law_choices_are_independent(
    responses: Seq<Map<u32, Seq<MeasuredView>>>,
    others: Seq<Map<u32, Seq<MeasuredView>>>,
    choice: u32,
)
    requires
        responses.len() == others.len(),
        forall|i: int|
            0 <= i < responses.len() ==> (#[trigger] responses[i]).contains_key(choice)
                == others[i].contains_key(choice) && (responses[i].contains_key(choice)
                ==> responses[i][choice] == others[i][choice]),
    ensures
        token_count(responses, choice) == token_count(others, choice),
        gathered(responses, choice) == gathered(others, choice),
    decreases responses.len(),
{
    if responses.len() > 0 {
        let last = responses.len() - 1;
        assert(responses[last].contains_key(choice) == others[last].contains_key(choice));
        assert forall|i: int| 0 <= i < last implies (
        #[trigger] responses.drop_last()[i]).contains_key(choice)
            == others.drop_last()[i].contains_key(choice) && (
        responses.drop_last()[i].contains_key(choice) ==> responses.drop_last()[i][choice]
            == others.drop_last()[i][choice]) by {
            assert(responses[i].contains_key(choice) == others[i].contains_key(choice));
        }
        law_choices_are_independent(responses.drop_last(), others.drop_last(), choice);
    }
}

/// What is known of the places of a choice.
pub open spec fn known_positions(analysis: SensitivityAnalysis, choice: u32) -> Seq<
    PositionCloseness,
> {
    if analysis.choice_analyses@.contains_key(choice) {
        analysis.choice_analyses@[choice].position_closeness@
    } else {
        Seq::empty()
    }
}

/// What some references point to.
pub open spec fn pointed_to<T>(references: Seq<&T>) -> Seq<T> {
    references.map_values(|reference: &T| *reference)
}

/// Whether the two likeliest tokens at a place are no further apart than some limit.
pub open spec fn is_close(position: PositionCloseness, threshold: i64) -> bool {
    position.probability_difference <= threshold
}

/// The rank of a hundredth, in single precision.
pub const TIE_LIMIT: i64 = 0x3f84_7ae1_4000_0000;

/// The rank of a twentieth, in single precision.
pub const CLEAR_LIMIT: i64 = 0x3fa9_9999_a000_0000;

/// Whether a place looks as if the likeliest token is always chosen: there is about a tie, or a
/// clear winner.
pub open spec fn is_greedy_like(position: PositionCloseness) -> bool {
    position.probability_difference < TIE_LIMIT || position.probability_difference > CLEAR_LIMIT
}

/// How many of some.
#[derive(Clone, Copy, Debug, PartialEq, Eq, Structural)]
pub struct Share {
    pub count: usize,
    pub total: usize,
}

/// How many of the places analyzed have something in common; nothing where there are none.
pub open spec fn share_of(
    analysis: SensitivityAnalysis,
    choice: u32,
    property: spec_fn(PositionCloseness) -> bool,
) -> Option<(nat, nat)> {
    if analysis.choice_analyses@.contains_key(choice)
        && analysis.choice_analyses@[choice].positions_analyzed > 0 {
        Some(
            (
                known_positions(analysis, choice).filter(property).len(),
                analysis.choice_analyses@[choice].positions_analyzed as nat,
            ),
        )
    } else {
        None
    }
}

/// What a share says.
pub open spec fn share_view(share: Option<Share>) -> Option<(nat, nat)> {
    match share {
        Some(share) => Some((share.count as nat, share.total as nat)),
        None => None,
    }
}

/// The tokens at a place that are close to the likeliest.
#[derive(Debug, PartialEq, Eq)]
pub struct MultipleCloseTokens {
    pub stream_position: usize,
    pub token_position: usize,
    pub close_count: usize,
    pub close_tokens: Vec<TokenLogprob>,
    /// By how much the last of them falls short of the likeliest.
    pub max_difference: i64,
}

/// What is said of close tokens.
pub struct CloseTokensView {
    pub stream_position: int,
    pub token_position: int,
    pub close_count: int,
    pub close_tokens: Seq<TokenView>,
    pub max_difference: i64,
}

impl View for MultipleCloseTokens {
    type V = CloseTokensView;

    open spec fn view(&self) -> CloseTokensView {
        CloseTokensView {
            stream_position: self.stream_position as int,
            token_position: self.token_position as int,
            close_count: self.close_count as int,
            close_tokens: token_views(self.close_tokens@),
            max_difference: self.max_difference,
        }
    }
}

/// How many tokens at a place are close: the likeliest, and those after it up to the first that
/// falls short by more than a limit.
pub open spec fn close_count(shortfalls: Seq<i64>, threshold: i64) -> int
    decreases shortfalls.len(),
{
    if shortfalls.len() <= 1 {
        1
    } else {
        let before = close_count(shortfalls.drop_last(), threshold);
        if before == shortfalls.len() - 1 && shortfalls.last() <= threshold {
            before + 1
        } else {
            before
        }
    }
}

/// The close tokens at a place.
pub open spec fn close_tokens(position: PositionView, threshold: i64) -> CloseTokensView {
    let count = close_count(position.shortfalls, threshold);
    CloseTokensView {
        stream_position: position.stream_position,
        token_position: position.token_position,
        close_count: count,
        close_tokens: position.candidates.take(count),
        max_difference: if count > 1 {
            position.shortfalls[count - 1]
        } else {
            0
        },
    }
}

/// The places with more than two close tokens, in the order of the places.
pub open spec fn multiple_close(positions: Seq<PositionCloseness>, threshold: i64) -> Seq<
    CloseTokensView,
>
    decreases positions.len(),
{
    if positions.len() == 0 {
        Seq::empty()
    } else {
        let before = multiple_close(positions.drop_last(), threshold);
        let last = close_tokens(positions.last()@, threshold);
        if last.close_count > 2 {
            before.push(last)
        } else {
            before
        }
    }
}

/// What is said of close tokens at some places.
pub open spec fn close_views(places: Seq<MultipleCloseTokens>) -> Seq<CloseTokensView> {
    places.map_values(|place: MultipleCloseTokens| place@)
}

fn count_close(shortfalls: &Vec<i64>, threshold: i64) -> (count: usize)
    requires
        shortfalls@.len() > 0,
    ensures
        count == close_count(shortfalls@, threshold),
        1 <= count <= shortfalls@.len(),
{
    let mut count: usize = 1;
    let mut index: usize = 1;
    assert(shortfalls@.take(1).len() == 1);
    while index < shortfalls.len()
        invariant
            1 <= count <= index <= shortfalls@.len(),
            count == close_count(shortfalls@.take(index as int), threshold),
        decreases shortfalls@.len() - index,
    {
        proof {
            lemma_take_next(shortfalls@, index as int);
        }
        if count == index && shortfalls[index] <= threshold {
            count += 1;
        }
        index += 1;
    }
    assert(shortfalls@.take(index as int) =~= shortfalls@);
    count
}

/// Finds the close tokens at a place.
fn count_close_tokens_at_position(
    position: &PositionCloseness,
    threshold: i64,
) -> (close: MultipleCloseTokens)
    requires
        position.wf(),
    ensures
        close@ == close_tokens(position@, threshold),
{
    let close_count: usize = count_close(&position.shortfalls, threshold);
    let mut close_tokens = duplicate_tokens(position.candidates.as_slice());
    close_tokens.truncate(close_count);
    assert(token_views(close_tokens@) =~= token_views(position.candidates@).take(
        close_count as int,
    ));
    MultipleCloseTokens {
        stream_position: position.stream_position,
        token_position: position.token_position,
        close_count,
        close_tokens,
        max_difference: if close_count > 1 {
            position.shortfalls[close_count - 1]
        } else {
            0
        },
    }
}

impl SensitivityAnalysis {
    /// The places of a choice at which the two likeliest tokens are no further apart than some
    /// limit.
    pub fn get_close_positions_for_choice(&self, choice: u32, threshold: i64) -> (close: Vec<
        &PositionCloseness,
    >)
        ensures
            pointed_to(close@) == known_positions(*self, choice).filter(
                |position: PositionCloseness| is_close(position, threshold),
            ),
    {
        let mut close: Vec<&PositionCloseness> = Vec::new();
        let ghost known = known_positions(*self, choice);
        let ghost property = |position: PositionCloseness| is_close(position, threshold);
        proof {
            reveal(Seq::filter);
        }
        if let Some(analysis) = self.choice_analyses.get(&choice) {
            let positions = &analysis.position_closeness;
            let mut index: usize = 0;
            assert(pointed_to(close@) =~= known.take(0).filter(property));
            while index < positions.len()
                invariant
                    index <= positions@.len(),
                    positions@ == known,
                    property == (|position: PositionCloseness| is_close(position, threshold)),
                    pointed_to(close@) == known.take(index as int).filter(property),
                decreases positions@.len() - index,
            {
                let ghost before = close@;
                proof {
                    reveal(Seq::filter);
                    lemma_take_next(known, index as int);
                }
                if positions[index].probability_difference <= threshold {
                    close.push(&positions[index]);
                    assert(pointed_to(close@) =~= pointed_to(before).push(known[index as int]));
                }
                index += 1;
            }
            assert(known.take(index as int) =~= known);
        } else {
            assert(pointed_to(close@) =~= known.filter(property));
        }
        close
    }

    /// The closest places of a choice, as many as are asked for and there are.
    pub fn get_closest_positions_for_choice(&self, choice: u32, count: usize) -> (closest: Vec<
        &PositionCloseness,
    >)
        ensures
            pointed_to(closest@) == known_positions(*self, choice).take(
                if count < known_positions(*self, choice).len() {
                    count as int
                } else {
                    known_positions(*self, choice).len() as int
                },
            ),
    {
        let mut closest: Vec<&PositionCloseness> = Vec::new();
        let ghost known = known_positions(*self, choice);
        if let Some(analysis) = self.choice_analyses.get(&choice) {
            let positions = &analysis.position_closeness;
            let mut index: usize = 0;
            while index < positions.len() && index < count
                invariant
                    index <= positions@.len(),
                    index <= count,
                    positions@ == known,
                    pointed_to(closest@) =~= known.take(index as int),
                decreases positions@.len() - index,
            {
                let ghost before = closest@;
                closest.push(&positions[index]);
                proof {
                    lemma_take_next(known, index as int);
                    assert(pointed_to(closest@) =~= pointed_to(before).push(known[index as int]));
                }
                index += 1;
            }
        }
        assert(pointed_to(closest@) =~= known.take(closest@.len() as int));
        closest
    }

    /// How many of the places of a choice are close.
    pub fn close_position_share_for_choice(&self, choice: u32, threshold: i64) -> (share: Option<
        Share,
    >)
        ensures
            share_view(share) == share_of(
                *self,
                choice,
                |position: PositionCloseness| is_close(position, threshold),
            ),
    {
        let analysis = match self.choice_analyses.get(&choice) {
            Some(analysis) => analysis,
            None => {
                return None;
            },
        };
        if analysis.positions_analyzed == 0 {
            return None;
        }
        let close = self.get_close_positions_for_choice(choice, threshold);
        assert(pointed_to(close@).len() == close@.len());
        Some(Share { count: close.len(), total: analysis.positions_analyzed })
    }

    /// The places of a choice with more than two close tokens.
    pub fn detect_multiple_close_tokens(&self, choice: u32, threshold: i64) -> (places: Vec<
        MultipleCloseTokens,
    >)
        requires
            self.wf(),
        ensures
            close_views(places@) == multiple_close(known_positions(*self, choice), threshold),
    {
        let mut places: Vec<MultipleCloseTokens> = Vec::new();
        let ghost known = known_positions(*self, choice);
        if let Some(analysis) = self.choice_analyses.get(&choice) {
            let positions = &analysis.position_closeness;
            assert forall|i: int| 0 <= i < positions@.len() implies (
            #[trigger] positions@[i]).wf() by {
                assert(self.choice_analyses@[choice].position_closeness@[i].wf());
            }
            let mut index: usize = 0;
            assert(close_views(places@) =~= multiple_close(known.take(0), threshold));
            while index < positions.len()
                invariant
                    index <= positions@.len(),
                    positions@ == known,
                    forall|i: int| 0 <= i < positions@.len() ==> (#[trigger] positions@[i]).wf(),
                    close_views(places@) == multiple_close(known.take(index as int), threshold),
                decreases positions@.len() - index,
            {
                let ghost before = places@;
                proof {
                    lemma_take_next(known, index as int);
                }
                let close = count_close_tokens_at_position(&positions[index], threshold);
                let ghost found = close@;
                if close.close_count > 2 {
                    places.push(close);
                    assert(close_views(places@) =~= close_views(before).push(found));
                }
                index += 1;
            }
            assert(known.take(index as int) =~= known);
        } else {
            assert(close_views(places@) =~= multiple_close(known, threshold));
        }
        places
    }

    /// How many of the places of a choice look as if the likeliest token is always chosen.
    pub fn greedy_selection_share(&self, choice: u32) -> (share: Option<Share>)
        ensures
            share_view(share) == share_of(
                *self,
                choice,
                |position: PositionCloseness| is_greedy_like(position),
            ),
    {
        let analysis = match self.choice_analyses.get(&choice) {
            Some(analysis) => analysis,
            None => {
                return None;
            },
        };
        if analysis.positions_analyzed == 0 {
            return None;
        }
        let ghost known = known_positions(*self, choice);
        let count: usize = count_greedy(&analysis.position_closeness, false);
        proof {
            lemma_same_filter(
                known,
                |position: PositionCloseness| may_be_greedy(position, false),
                |position: PositionCloseness| is_greedy_like(position),
            );
        }
        Some(Share { count, total: analysis.positions_analyzed })
    }

    /// Whether the likeliest token seems to have been chosen always: more than half of the places
    /// of a choice look so or have no tokens, or there is no place to tell from. A choice that is
    /// not known does not seem so.
    pub fn detect_likely_greedy_decoding(&self, choice: u32) -> (greedy: bool)
        ensures
            greedy == (self.choice_analyses@.contains_key(choice) && match share_of(
                *self,
                choice,
                |position: PositionCloseness| may_be_greedy(position, true),
            ) {
                Some((count, total)) => 2 * count > total,
                None => true,
            }),
    {
        let analysis = match self.choice_analyses.get(&choice) {
            Some(analysis) => analysis,
            None => {
                return false;
            },
        };
        if analysis.positions_analyzed == 0 {
            return true;
        }
        let count: usize = count_greedy(&analysis.position_closeness, true);
        count > analysis.positions_analyzed / 2
    }
}

/// Whether a place looks as if the likeliest token is always chosen, or says nothing against it for
/// want of tokens, if that counts.
pub open spec fn may_be_greedy(position: PositionCloseness, without_tokens: bool) -> bool {
    (without_tokens && position.candidates@.len() == 0) || is_greedy_like(position)
}

fn count_greedy(positions: &Vec<PositionCloseness>, without_tokens: bool) -> (count: usize)
    ensures
        count == positions@.filter(
            |position: PositionCloseness| may_be_greedy(position, without_tokens),
        ).len(),
{
    let ghost property = |position: PositionCloseness| may_be_greedy(position, without_tokens);
    let mut count: usize = 0;
    let mut index: usize = 0;
    proof {
        reveal(Seq::filter);
    }
    assert(positions@.take(0).filter(property).len() == 0);
    while index < positions.len()
        invariant
            count <= index <= positions@.len(),
            property == (|position: PositionCloseness| may_be_greedy(position, without_tokens)),
            count == positions@.take(index as int).filter(property).len(),
        decreases positions@.len() - index,
    {
        proof {
            reveal(Seq::filter);
            lemma_take_next(positions@, index as int);
        }
        let position = &positions[index];
        if (without_tokens && position.candidates.len() == 0) || position.probability_difference
            < TIE_LIMIT || position.probability_difference > CLEAR_LIMIT {
            count += 1;
        }
        index += 1;
    }
    assert(positions@.take(index as int) =~= positions@);
    count
}

/// Properties that hold of the same things pick the same things.
proof fn lemma_same_filter<T>(
    things: Seq<T>,
    first: spec_fn(T) -> bool,
    second: spec_fn(T) -> bool,
)
    requires
        forall|thing: T| #[trigger] first(thing) == second(thing),
    ensures
        things.filter(first) == things.filter(second),
    decreases things.len(),
{
    reveal(Seq::filter);
    if things.len() > 0 {
        lemma_same_filter(things.drop_last(), first, second);
        assert(first(things.last()) == second(things.last()));
    }
}

} // verus!
