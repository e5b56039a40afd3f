//! What is told of the places where an answer might have gone another way.
use crate::perf::logprobs::{token_views, TokenLogProbs, TokenLogprob};
use crate::perf::ordering::{law_arranged, order_of, ranks_before};
use crate::perf::sensitivity::{
    analyze_logprob_sensitivity, close_count, close_tokens, close_views, differences, gathered,
    is_reported, measured_views, multiple_close, pointed_to, position_of, position_views,
    positions_of, response_views, token_count, MeasuredToken, MeasuredView, MultipleCloseTokens,
    PositionCloseness, PositionView, SensitivityAnalysis, Share,
};
use std::collections::HashMap;
use vstd::prelude::*;

verus! {

proof fn lemma_close_count(shortfalls: Seq<i64>, threshold: i64)
    requires
        shortfalls.len() > 0,
    ensures
        ({
            let count = close_count(shortfalls, threshold);
            &&& 1 <= count <= shortfalls.len()
            &&& forall|i: int| 1 <= i < count ==> #[trigger] shortfalls[i] <= threshold
            &&& count < shortfalls.len() ==> shortfalls[count] > threshold
        }),
    decreases shortfalls.len(),
{
    if shortfalls.len() > 1 {
        let shorter = shortfalls.drop_last();
        lemma_close_count(shorter, threshold);
        let count = close_count(shortfalls, threshold);
        assert forall|i: int| 1 <= i < count implies #[trigger] shortfalls[i] <= threshold by {
            if i < shorter.len() {
                assert(shorter[i] == shortfalls[i]);
            }
        }
    }
}

proof fn lemma_told_places(positions: Seq<PositionCloseness>, threshold: i64, k: int) -> (p: int)
    requires
        0 <= k < multiple_close(positions, threshold).len(),
    ensures
        0 <= p < positions.len(),
        multiple_close(positions, threshold)[k] == close_tokens(positions[p]@, threshold),
        close_tokens(positions[p]@, threshold).close_count > 2,
    decreases positions.len(),
{
    let before = multiple_close(positions.drop_last(), threshold);
    if k < before.len() {
        lemma_told_places(positions.drop_last(), threshold, k)
    } else {
        positions.len() - 1
    }
}

proof fn lemma_places_are_told(positions: Seq<PositionCloseness>, threshold: i64, p: int) -> (k:
    int)
    requires
        0 <= p < positions.len(),
        close_tokens(positions[p]@, threshold).close_count > 2,
    ensures
        0 <= k < multiple_close(positions, threshold).len(),
        multiple_close(positions, threshold)[k] == close_tokens(positions[p]@, threshold),
    decreases positions.len(),
{
    let before = multiple_close(positions.drop_last(), threshold);
    if p < positions.len() - 1 {
        lemma_places_are_told(positions.drop_last(), threshold, p)
    } else {
        before.len() as int
    }
}

/// The close tokens at a place are its first ones: the likeliest comes first, and each one after
/// it falls short of the likeliest by no more than the threshold, up to the first that does. There
/// are more than two of them, and the last says how far they are apart.
pub proof fn law_close_tokens_are_the_likeliest(
    analysis: &SensitivityAnalysis,
    choice: u32,
    threshold: i64,
    places: Vec<MultipleCloseTokens>,
    k: int,
)
    requires
        analysis.wf(),
        analysis.choice_analyses@.contains_key(choice),
        call_ensures(
            SensitivityAnalysis::detect_multiple_close_tokens,
            (analysis, choice, threshold),
            places,
        ),
        0 <= k < places@.len(),
    ensures
        ({
            let known = analysis.choice_analyses@[choice].position_closeness@;
            let place = places@[k];
            exists|p: int|
                {
                    &&& 0 <= p < known.len()
                    &&& place.stream_position == (#[trigger] known[p]).stream_position
                    &&& place.token_position == known[p].token_position
                    &&& place.close_tokens@.len() == place.close_count
                    &&& 2 < place.close_count <= known[p].candidates@.len()
                    &&& place.close_tokens@[0]@ == known[p].candidates@[0]@
                    &&& forall|j: int|
                        0 <= j < place.close_count ==> (#[trigger] place.close_tokens@[j])@
                            == known[p].candidates@[j]@
                    &&& forall|j: int|
                        1 <= j < place.close_count ==> #[trigger] known[p].shortfalls@[j]
                            <= threshold
                    &&& place.close_count < known[p].candidates@.len()
                        ==> known[p].shortfalls@[place.close_count as int] > threshold
                    &&& place.max_difference == known[p].shortfalls@[place.close_count - 1]
                }
        }),
{
    let known = analysis.choice_analyses@[choice].position_closeness@;
    let views = close_views(places@);
    assert(views[k] == places@[k]@);
    let p = lemma_told_places(known, threshold, k);
    assert(known[p].wf());
    lemma_close_count(known[p].shortfalls@, threshold);
    let place = places@[k];
    let count = close_count(known[p].shortfalls@, threshold);
    assert(token_views(place.close_tokens@) == token_views(known[p].candidates@).take(count));
    assert(token_views(place.close_tokens@).len() == place.close_tokens@.len());
    assert forall|j: int| 0 <= j < place.close_count implies (#[trigger] place.close_tokens@[j])@
        == known[p].candidates@[j]@ by {
        assert(token_views(place.close_tokens@)[j] == place.close_tokens@[j]@);
        assert(token_views(known[p].candidates@)[j] == known[p].candidates@[j]@);
    }
    assert(place.stream_position == known[p].stream_position);
}

/// Every place whose second and third likeliest tokens are close is told.
pub proof fn law_places_with_close_tokens_are_told(
    analysis: &SensitivityAnalysis,
    choice: u32,
    threshold: i64,
    places: Vec<MultipleCloseTokens>,
    p: int,
)
    requires
        analysis.wf(),
        call_ensures(
            SensitivityAnalysis::detect_multiple_close_tokens,
            (analysis, choice, threshold),
            places,
        ),
        analysis.choice_analyses@.contains_key(choice) ==> 0 <= p
            < analysis.choice_analyses@[choice].position_closeness@.len(),
    ensures
        !analysis.choice_analyses@.contains_key(choice) ==> places@.len() == 0,
        analysis.choice_analyses@.contains_key(choice) ==> {
            let position = analysis.choice_analyses@[choice].position_closeness@[p];
            position.shortfalls@.len() > 2 && position.shortfalls@[1] <= threshold
                && position.shortfalls@[2] <= threshold ==> exists|k: int|
                0 <= k < places@.len() && (#[trigger] places@[k]).stream_position
                    == position.stream_position && places@[k].token_position
                    == position.token_position
        },
{
    let views = close_views(places@);
    assert(views.len() == places@.len());
    if analysis.choice_analyses@.contains_key(choice) {
        let known = analysis.choice_analyses@[choice].position_closeness@;
        let position = known[p];
        assert(position.wf());
        if position.shortfalls@.len() > 2 && position.shortfalls@[1] <= threshold
            && position.shortfalls@[2] <= threshold {
            lemma_close_count(position.shortfalls@, threshold);
            let k = lemma_places_are_told(known, threshold, p);
            assert(views[k] == places@[k]@);
            assert(places@[k].stream_position == position.stream_position);
        }
    }
}

proof fn lemma_filter_has<T>(things: Seq<T>, pred: spec_fn(T) -> bool, thing: T)
    ensures
        things.filter(pred).contains(thing) <==> things.contains(thing) && pred(thing),
    decreases things.len(),
{
    reveal(Seq::filter);
    if things.len() > 0 {
        let before = things.drop_last();
        lemma_filter_has(before, pred, thing);
        crate::seqs::lemma_push_contains(before, things.last(), thing);
        crate::seqs::lemma_push_contains(before.filter(pred), things.last(), thing);
        assert(before.push(things.last()) =~= things);
    }
}

/// The close places of a choice are exactly those whose two likeliest tokens are no further apart
/// than the threshold.
pub proof fn law_close_places_are_within_the_threshold(
    analysis: &SensitivityAnalysis,
    choice: u32,
    threshold: i64,
    close: Vec<&PositionCloseness>,
    position: PositionCloseness,
)
    requires
        call_ensures(
            SensitivityAnalysis::get_close_positions_for_choice,
            (analysis, choice, threshold),
            close,
        ),
    ensures
        (exists|i: int| 0 <= i < close@.len() && *(#[trigger] close@[i]) == position) <==> (
        analysis.choice_analyses@.contains_key(choice)
            && analysis.choice_analyses@[choice].position_closeness@.contains(position)
            && position.probability_difference <= threshold),
        analysis.choice_analyses@.contains_key(choice) ==> close@.map_values(
            |close: &PositionCloseness| *close,
        ) == analysis.choice_analyses@[choice].position_closeness@.filter(
            |position: PositionCloseness| position.probability_difference <= threshold,
        ),
        !analysis.choice_analyses@.contains_key(choice) ==> close@.len() == 0,
{
    let known = crate::perf::sensitivity::known_positions(*analysis, choice);
    let property = |position: PositionCloseness|
        crate::perf::sensitivity::is_close(position, threshold);
    lemma_filter_has(known, property, position);
    let told = pointed_to(close@);
    lemma_filters_agree(
        known,
        property,
        |position: PositionCloseness| position.probability_difference <= threshold,
    );
    assert(told =~= close@.map_values(|close: &PositionCloseness| *close));
    assert(told.len() == close@.len());
    if !analysis.choice_analyses@.contains_key(choice) {
        reveal(Seq::filter);
    }
    if told.contains(position) {
        let i = choose|i: int| 0 <= i < told.len() && told[i] == position;
        assert(*close@[i] == position);
    }
    if exists|i: int| 0 <= i < close@.len() && *(#[trigger] close@[i]) == position {
        let i = choose|i: int| 0 <= i < close@.len() && *(#[trigger] close@[i]) == position;
        assert(told[i] == position);
    }
}

/// The closest places of a choice are its first ones, as many as are asked for and there are.
pub proof fn law_closest_places_are_the_first(
    analysis: &SensitivityAnalysis,
    choice: u32,
    count: usize,
    closest: Vec<&PositionCloseness>,
)
    requires
        call_ensures(
            SensitivityAnalysis::get_closest_positions_for_choice,
            (analysis, choice, count),
            closest,
        ),
    ensures
        !analysis.choice_analyses@.contains_key(choice) ==> closest@.len() == 0,
        analysis.choice_analyses@.contains_key(choice) ==> {
            let known = analysis.choice_analyses@[choice].position_closeness@;
            &&& closest@.len() <= count && closest@.len() <= known.len()
            &&& closest@.len() == count || closest@.len() == known.len()
            &&& forall|i: int| 0 <= i < closest@.len() ==> *(#[trigger] closest@[i]) == known[i]
        },
{
    assert(pointed_to(closest@).len() == closest@.len());
    assert forall|i: int| 0 <= i < closest@.len() implies *(#[trigger] closest@[i]) == pointed_to(
        closest@,
    )[i] by {}
}

/// The share of close places is the number of close places of all that were analyzed; there is no
/// share where none was.
pub proof fn law_share_counts_the_close_places(
    analysis: &SensitivityAnalysis,
    choice: u32,
    threshold: i64,
    close: Vec<&PositionCloseness>,
    share: Option<Share>,
)
    requires
        call_ensures(
            SensitivityAnalysis::get_close_positions_for_choice,
            (analysis, choice, threshold),
            close,
        ),
        call_ensures(
            SensitivityAnalysis::close_position_share_for_choice,
            (analysis, choice, threshold),
            share,
        ),
    ensures
        share is Some <==> analysis.choice_analyses@.contains_key(choice)
            && analysis.choice_analyses@[choice].positions_analyzed > 0,
        share matches Some(share) ==> share.count == close@.len() && share.total
            == analysis.choice_analyses@[choice].positions_analyzed,
{
    assert(pointed_to(close@).len() == close@.len());
}

proof fn lemma_filters_agree<T>(
    things: Seq<T>,
    first: spec_fn(T) -> bool,
    second: spec_fn(T) -> bool,
)
    requires
        forall|thing: T| #[trigger] first(thing) == second(thing),
    ensures
        things.filter(first) == things.filter(second),
    decreases things.len(),
{
    reveal(Seq::filter);
    if things.len() > 0 {
        lemma_filters_agree(things.drop_last(), first, second);
        assert(first(things.last()) == second(things.last()));
    }
}

/// The places that look greedy are those whose two likeliest tokens are less than a hundredth or
/// more than a twentieth apart. An answer looks greedy where more than half of its places do, those
/// without tokens too, or where no place was analyzed; one that is not known does not.
pub proof fn law_greedy_answers_have_ties_or_clear_winners(
    analysis: &SensitivityAnalysis,
    choice: u32,
    share: Option<Share>,
    greedy: bool,
)
    requires
        call_ensures(SensitivityAnalysis::greedy_selection_share, (analysis, choice), share),
        call_ensures(SensitivityAnalysis::detect_likely_greedy_decoding, (analysis, choice), greedy),
    ensures
        share is Some <==> analysis.choice_analyses@.contains_key(choice)
            && analysis.choice_analyses@[choice].positions_analyzed > 0,
        share matches Some(share) ==> {
            let known = analysis.choice_analyses@[choice];
            &&& share.total == known.positions_analyzed
            &&& share.count == known.position_closeness@.filter(
                |position: PositionCloseness|
                    position.probability_difference < 0x3f84_7ae1_4000_0000
                        || position.probability_difference > 0x3fa9_9999_a000_0000,
            ).len()
        },
        !analysis.choice_analyses@.contains_key(choice) ==> !greedy,
        analysis.choice_analyses@.contains_key(choice) ==> {
            let known = analysis.choice_analyses@[choice];
            greedy <==> known.positions_analyzed == 0 || 2 * known.position_closeness@.filter(
                |position: PositionCloseness|
                    position.candidates@.len() == 0 || position.probability_difference
                        < 0x3f84_7ae1_4000_0000 || position.probability_difference
                        > 0x3fa9_9999_a000_0000,
            ).len() > known.positions_analyzed
        },
{
    let known = crate::perf::sensitivity::known_positions(*analysis, choice);
    lemma_filters_agree(
        known,
        |position: PositionCloseness| crate::perf::sensitivity::is_greedy_like(position),
        |position: PositionCloseness|
            position.probability_difference < 0x3f84_7ae1_4000_0000
                || position.probability_difference > 0x3fa9_9999_a000_0000,
    );
    lemma_filters_agree(
        known,
        |position: PositionCloseness| crate::perf::sensitivity::may_be_greedy(position, true),
        |position: PositionCloseness|
            position.candidates@.len() == 0 || position.probability_difference
                < 0x3f84_7ae1_4000_0000 || position.probability_difference > 0x3fa9_9999_a000_0000,
    );
}

proof fn lemma_positions_of_have(tokens: Seq<MeasuredView>, stream: int, start: int, i: int) -> (k:
    int)
    requires
        0 <= i < tokens.len(),
        tokens[i].all.len() >= 2,
    ensures
        0 <= k < positions_of(tokens, stream, start).len(),
        positions_of(tokens, stream, start)[k] == position_of(tokens[i], stream, start + i),
    decreases tokens.len(),
{
    if i < tokens.len() - 1 {
        lemma_positions_of_have(tokens.drop_last(), stream, start, i)
    } else {
        positions_of(tokens.drop_last(), stream, start).len() as int
    }
}

proof fn lemma_positions_of_come(tokens: Seq<MeasuredView>, stream: int, start: int, k: int) -> (i:
    int)
    requires
        0 <= k < positions_of(tokens, stream, start).len(),
    ensures
        0 <= i < tokens.len(),
        tokens[i].all.len() >= 2,
        positions_of(tokens, stream, start)[k] == position_of(tokens[i], stream, start + i),
    decreases tokens.len(),
{
    if k < positions_of(tokens.drop_last(), stream, start).len() {
        lemma_positions_of_come(tokens.drop_last(), stream, start, k)
    } else {
        tokens.len() - 1
    }
}

proof fn lemma_gathered_has(
    responses: Seq<Map<u32, Seq<MeasuredView>>>,
    choice: u32,
    r: int,
    i: int,
) -> (k: int)
    requires
        0 <= r < responses.len(),
        responses[r].contains_key(choice),
        0 <= i < responses[r][choice].len(),
        responses[r][choice][i].all.len() >= 2,
    ensures
        0 <= k < gathered(responses, choice).len(),
        gathered(responses, choice)[k] == position_of(
            responses[r][choice][i],
            r,
            token_count(responses.take(r), choice) + i,
        ),
    decreases responses.len(),
{
    let shorter = responses.drop_last();
    if r < responses.len() - 1 {
        assert(shorter.take(r) =~= responses.take(r));
        lemma_gathered_has(shorter, choice, r, i)
    } else {
        assert(shorter =~= responses.take(r));
        let start = token_count(shorter, choice) as int;
        let at = lemma_positions_of_have(responses[r][choice], r, start, i);
        gathered(shorter, choice).len() + at
    }
}

proof fn lemma_gathered_comes(
    responses: Seq<Map<u32, Seq<MeasuredView>>>,
    choice: u32,
    k: int,
) -> (from: (int, int))
    requires
        0 <= k < gathered(responses, choice).len(),
    ensures
        0 <= from.0 < responses.len(),
        responses[from.0].contains_key(choice),
        0 <= from.1 < responses[from.0][choice].len(),
        responses[from.0][choice][from.1].all.len() >= 2,
        gathered(responses, choice)[k] == position_of(
            responses[from.0][choice][from.1],
            from.0,
            token_count(responses.take(from.0), choice) + from.1,
        ),
    decreases responses.len(),
{
    let shorter = responses.drop_last();
    let last = responses.len() - 1;
    if k < gathered(shorter, choice).len() {
        let from = lemma_gathered_comes(shorter, choice, k);
        assert(shorter.take(from.0) =~= responses.take(from.0));
        from
    } else {
        assert(shorter =~= responses.take(last));
        let start = token_count(shorter, choice) as int;
        let i = lemma_positions_of_come(
            responses[last][choice],
            last,
            start,
            k - gathered(shorter, choice).len(),
        );
        (last, i)
    }
}

proof fn lemma_token_count(responses: Seq<HashMap<u32, Vec<MeasuredToken>>>, choice: u32)
    ensures
        token_count(response_views(responses), choice) == responses.fold_left(
            0int,
            |sum: int, response: HashMap<u32, Vec<MeasuredToken>>|
                if response@.contains_key(choice) {
                    sum + response@[choice]@.len()
                } else {
                    sum
                },
        ),
    decreases responses.len(),
{
    if responses.len() > 0 {
        lemma_token_count(responses.drop_last(), choice);
        assert(response_views(responses).drop_last() =~= response_views(responses.drop_last()));
        assert(response_views(responses).last() == crate::perf::sensitivity::response_view(
            responses.last()@,
        ));
    }
}

/// Whether what is told of a place is what was measured of a token of some response: the token is
/// counted from the first of its choice on, over all responses; the probabilities are those that
/// were measured, and the tokens those that were there.
pub open spec fn tells_of(
    position: PositionCloseness,
    responses: Seq<HashMap<u32, Vec<MeasuredToken>>>,
    choice: u32,
    r: int,
    i: int,
) -> bool {
    let token = responses[r]@[choice]@[i];
    &&& position.stream_position == r
    &&& position.token_position == i + responses.take(r).fold_left(
        0int,
        |sum: int, response: HashMap<u32, Vec<MeasuredToken>>|
            if response@.contains_key(choice) {
                sum + response@[choice]@.len()
            } else {
                sum
            },
    )
    &&& position.logprob_difference == token.logprob_difference
    &&& position.probability_difference == token.shortfalls@[1]
    &&& position.probability_remaining == token.probability_remaining
    &&& position.shortfalls@ == token.shortfalls@
    &&& token_views(position.candidates@) == token.tokens@.all
}

proof fn lemma_tells(
    position: PositionCloseness,
    responses: Seq<HashMap<u32, Vec<MeasuredToken>>>,
    choice: u32,
    r: int,
    i: int,
)
    requires
        0 <= r < responses.len(),
        responses[r]@.contains_key(choice),
        0 <= i < responses[r]@[choice]@.len(),
    ensures
        tells_of(position, responses, choice, r, i) <==> position@ == position_of(
            response_views(responses)[r][choice][i],
            r,
            token_count(response_views(responses).take(r), choice) + i,
        ),
{
    lemma_token_count(responses.take(r), choice);
    assert(response_views(responses).take(r) =~= response_views(responses.take(r)));
    assert(response_views(responses)[r][choice][i] == responses[r]@[choice]@[i]@);
    let told = position_of(
        response_views(responses)[r][choice][i],
        r,
        token_count(response_views(responses).take(r), choice) + i,
    );
    assert(position@ == told <==> {
        &&& position@.stream_position == told.stream_position
        &&& position@.token_position == told.token_position
        &&& position@.logprob_difference == told.logprob_difference
        &&& position@.probability_difference == told.probability_difference
        &&& position@.probability_remaining == told.probability_remaining
        &&& position@.candidates == told.candidates
        &&& position@.shortfalls == told.shortfalls
    });
}

/// A choice is analyzed exactly where some response speaks of it.
pub proof fn law_reported_choices_are_analyzed(
    responses: Vec<HashMap<u32, Vec<MeasuredToken>>>,
    analysis: SensitivityAnalysis,
    choice: u32,
)
    requires
        call_ensures(analyze_logprob_sensitivity, (responses,), analysis),
    ensures
        analysis.total_responses == responses@.len(),
        analysis.choice_analyses@.contains_key(choice) <==> exists|r: int|
            0 <= r < responses@.len() && (#[trigger] responses@[r])@.contains_key(choice),
        analysis.choice_analyses@.contains_key(choice)
            ==> analysis.choice_analyses@[choice].choice_index == choice
            && analysis.choice_analyses@[choice].positions_analyzed
            == analysis.choice_analyses@[choice].position_closeness@.len(),
{
    let views = response_views(responses@);
    if exists|r: int| 0 <= r < responses@.len() && (#[trigger] responses@[r])@.contains_key(choice) {
        let r = choose|r: int|
            0 <= r < responses@.len() && (#[trigger] responses@[r])@.contains_key(choice);
        assert(views[r].contains_key(choice));
        assert(is_reported(views, choice));
    }
    if is_reported(views, choice) {
        let r = choose|r: int| 0 <= r < views.len() && (#[trigger] views[r]).contains_key(choice);
        assert(responses@[r]@.contains_key(choice));
    }
    if analysis.choice_analyses@.contains_key(choice) {
        let known = analysis.choice_analyses@[choice].position_closeness@;
        assert(position_views(known).len() == known.len());
    }
}

/// Every token that had an alternative is told of, and nothing else is; the closest places come
/// first.
pub proof fn law_every_open_place_is_told(
    responses: Vec<HashMap<u32, Vec<MeasuredToken>>>,
    analysis: SensitivityAnalysis,
    choice: u32,
    r: int,
    i: int,
    p: int,
    q: int,
)
    requires
        call_ensures(analyze_logprob_sensitivity, (responses,), analysis),
        analysis.choice_analyses@.contains_key(choice),
    ensures
        0 <= r < responses@.len() && responses@[r]@.contains_key(choice) && 0 <= i
            < responses@[r]@[choice]@.len() && responses@[r]@[choice]@[i].tokens@.all.len() >= 2
            ==> exists|n: int|
            0 <= n < analysis.choice_analyses@[choice].position_closeness@.len() && tells_of(
                #[trigger] analysis.choice_analyses@[choice].position_closeness@[n],
                responses@,
                choice,
                r,
                i,
            ),
        0 <= p < analysis.choice_analyses@[choice].position_closeness@.len() ==> exists|s: int, j: int|
            0 <= s < responses@.len() && responses@[s]@.contains_key(choice) && 0 <= j
                < responses@[s]@[choice]@.len() && responses@[s]@[choice]@[j].tokens@.all.len() >= 2
                && #[trigger] tells_of(
                analysis.choice_analyses@[choice].position_closeness@[p],
                responses@,
                choice,
                s,
                j,
            ),
        0 <= p < q < analysis.choice_analyses@[choice].position_closeness@.len()
            ==> analysis.choice_analyses@[choice].position_closeness@[p].probability_difference
            <= analysis.choice_analyses@[choice].position_closeness@[q].probability_difference,
{
    let views = response_views(responses@);
    let known = analysis.choice_analyses@[choice].position_closeness@;
    let all = gathered(views, choice);
    let ranks = differences(all);
    assert(crate::perf::sensitivity::is_choice_analysis(
        analysis.choice_analyses@[choice],
        views,
        choice,
    ));
    assert(ranks.len() == all.len());
    law_arranged(all, ranks);
    let told = position_views(known);
    assert(told.len() == known.len());
    if 0 <= r < responses@.len() && responses@[r]@.contains_key(choice) && 0 <= i
        < responses@[r]@[choice]@.len() && responses@[r]@[choice]@[i].tokens@.all.len() >= 2 {
        assert(views[r][choice][i] == responses@[r]@[choice]@[i]@);
        let k = lemma_gathered_has(views, choice, r, i);
        assert(all.contains(all[k]));
        assert(told.contains(all[k]));
        let n = choose|n: int| 0 <= n < told.len() && told[n] == all[k];
        assert(told[n] == known[n]@);
        lemma_tells(known[n], responses@, choice, r, i);
        assert(tells_of(known[n], responses@, choice, r, i));
    }
    if 0 <= p < known.len() {
        assert(told[p] == known[p]@);
        assert(told.contains(told[p]));
        assert(all.contains(told[p]));
        let k = choose|k: int| 0 <= k < all.len() && all[k] == told[p];
        let (s, j) = lemma_gathered_comes(views, choice, k);
        assert(views[s][choice][j] == responses@[s]@[choice]@[j]@);
        lemma_tells(known[p], responses@, choice, s, j);
        assert(tells_of(known[p], responses@, choice, s, j));
    }
    if 0 <= p < q < known.len() {
        let order = order_of(ranks);
        assert(ranks_before(ranks, order[p], order[q]));
        assert(told[p] == known[p]@ && told[q] == known[q]@);
        assert(told[p] == all[order[p] as int] && told[q] == all[order[q] as int]);
    }
}

/// The tokens at a place are the alternatives by falling likelihood, and the chosen token among
/// them unless an alternative with its text is nearly as likely.
pub proof fn law_tokens_at_a_place_fall(
    selected: TokenLogprob,
    alternatives: Vec<TokenLogprob>,
    near: &Vec<bool>,
    tokens: TokenLogProbs,
    i: int,
    j: int,
)
    requires
        call_ensures(TokenLogProbs::new, (selected, alternatives, near), tokens),
    ensures
        tokens@.selected == selected@,
        0 <= i < j < tokens@.all.len() ==> tokens@.all[i].logprob >= tokens@.all[j].logprob,
        0 <= i < j < tokens@.alternatives.len() ==> tokens@.alternatives[i].logprob
            >= tokens@.alternatives[j].logprob,
        tokens@.alternatives.len() == alternatives@.len(),
        tokens@.all.len() == alternatives@.len() + (if exists|k: int|
            0 <= k < alternatives@.len() && (#[trigger] alternatives@[k]).token@ == selected.token@
                && near@[k] {
            0int
        } else {
            1int
        }),
        0 <= i < alternatives@.len() ==> tokens@.all.contains(alternatives@[i]@)
            && tokens@.alternatives.contains(alternatives@[i]@),
{
    let views = token_views(alternatives@);
    let ranks = crate::perf::logprobs::falling_ranks(views);
    assert(vstd::std_specs::vec::spec_vec_len(&alternatives) == alternatives@.len());
    law_arranged(views, ranks);
    let order = order_of(ranks);
    let listed = crate::perf::logprobs::is_listed(selected@, views, near@);
    if listed {
        let k = choose|k: int|
            0 <= k < views.len() && (#[trigger] views[k]).token == selected@.token && near@[k];
        assert(alternatives@[k].token@ == selected.token@);
    }
    if exists|k: int|
        0 <= k < alternatives@.len() && (#[trigger] alternatives@[k]).token@ == selected.token@
            && near@[k] {
        let k = choose|k: int|
            0 <= k < alternatives@.len() && (#[trigger] alternatives@[k]).token@ == selected.token@
                && near@[k];
        assert(views[k].token == selected@.token);
    }
    if 0 <= i < j < tokens@.all.len() {
        crate::perf::logprobs::law_all_tokens_fall(selected@, views, near@, i, j);
    }
    if 0 <= i < j < tokens@.alternatives.len() {
        assert(ranks_before(ranks, order[i], order[j]));
    }
    if 0 <= i < alternatives@.len() {
        assert(views[i] == alternatives@[i]@);
        assert(views.contains(views[i]));
        crate::perf::logprobs::law_all_tokens_are_there(selected@, views, near@, views[i]);
    }
    crate::perf::logprobs::lemma_counted(
        selected.logprob,
        crate::perf::logprobs::likeliest_first(views),
    );
}

proof fn lemma_told_in_order(
    positions: Seq<PositionCloseness>,
    threshold: i64,
    k: int,
    later: int,
) -> (places: (int, int))
    requires
        0 <= k < later < multiple_close(positions, threshold).len(),
    ensures
        0 <= places.0 < places.1 < positions.len(),
        multiple_close(positions, threshold)[k] == close_tokens(
            positions[places.0]@,
            threshold,
        ),
        multiple_close(positions, threshold)[later] == close_tokens(
            positions[places.1]@,
            threshold,
        ),
    decreases positions.len(),
{
    let before = multiple_close(positions.drop_last(), threshold);
    if later < before.len() {
        lemma_told_in_order(positions.drop_last(), threshold, k, later)
    } else {
        let p = lemma_told_places(positions.drop_last(), threshold, k);
        (p, positions.len() - 1)
    }
}

/// Places with close tokens are told in the order of the places.
pub proof fn law_places_with_close_tokens_keep_their_order(
    analysis: &SensitivityAnalysis,
    choice: u32,
    threshold: i64,
    places: Vec<MultipleCloseTokens>,
    k: int,
    later: int,
) -> (from: (int, int))
    requires
        analysis.choice_analyses@.contains_key(choice),
        call_ensures(
            SensitivityAnalysis::detect_multiple_close_tokens,
            (analysis, choice, threshold),
            places,
        ),
        0 <= k < later < places@.len(),
    ensures
        ({
            let known = analysis.choice_analyses@[choice].position_closeness@;
            &&& 0 <= from.0 < from.1 < known.len()
            &&& places@[k].stream_position == known[from.0].stream_position
            &&& places@[k].token_position == known[from.0].token_position
            &&& places@[later].stream_position == known[from.1].stream_position
            &&& places@[later].token_position == known[from.1].token_position
        }),
{
    let known = analysis.choice_analyses@[choice].position_closeness@;
    let views = close_views(places@);
    assert(views[k] == places@[k]@);
    assert(views[later] == places@[later]@);
    lemma_told_in_order(known, threshold, k, later)
}

} // verus!
