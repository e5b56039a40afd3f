//! How likely the tokens of an answer were. Likelihoods are compared by rank: a greater rank
//! stands for a greater likelihood.
use crate::perf::ordering::{arrange, arranged, law_arranged, order_of, ranks_before};
use crate::seqs::lemma_take_next;
use crate::text::{decimal, decimal_text, join, join_all, joined, same_text, views};
use std::collections::HashMap;
use vstd::prelude::*;

verus! {

broadcast use vstd::std_specs::hash::group_hash_axioms;

/// How likelihoods are reported.
#[derive(Clone, Copy, Debug, PartialEq, Eq, Structural)]
pub enum LogprobType {
    /// Those at the top add up.
    Normalized,
    /// They do not.
    Unnormalized,
}

/// A token and how likely it was.
#[derive(Debug, PartialEq, Eq)]
pub struct TokenLogprob {
    pub token: String,
    /// The rank of its log probability.
    pub logprob: i64,
    pub bytes: Option<Vec<u8>>,
}

/// What a token says.
pub struct TokenView {
    pub token: Seq<char>,
    pub logprob: i64,
    pub bytes: Option<Seq<u8>>,
}

impl View for TokenLogprob {
    type V = TokenView;

    open spec fn view(&self) -> TokenView {
        TokenView {
            token: self.token@,
            logprob: self.logprob,
            bytes: match self.bytes {
                Some(bytes) => Some(bytes@),
                None => None,
            },
        }
    }
}

impl TokenLogprob {
    /// Another token that says the same.
    pub fn duplicate(&self) -> (copy: Self)
        ensures
            copy@ == self@,
    {
        let bytes = match &self.bytes {
            Some(bytes) => {
                let copy = bytes.clone();
                assert(copy@ =~= bytes@);
                Some(copy)
            },
            None => None,
        };
        TokenLogprob { token: self.token.clone(), logprob: self.logprob, bytes }
    }
}

/// What some tokens say.
pub open spec fn token_views(tokens: Seq<TokenLogprob>) -> Seq<TokenView> {
    tokens.map_values(|token: TokenLogprob| token@)
}

/// Copies some tokens.
pub(crate) fn duplicate_tokens(tokens: &[TokenLogprob]) -> (copies: Vec<TokenLogprob>)
    ensures
        token_views(copies@) == token_views(tokens@),
{
    let mut copies: Vec<TokenLogprob> = Vec::new();
    let mut index: usize = 0;
    while index < tokens.len()
        invariant
            index <= tokens@.len(),
            copies@.len() == index,
            forall|i: int| 0 <= i < index ==> (#[trigger] copies@[i])@ == tokens@[i]@,
        decreases tokens@.len() - index,
    {
        copies.push(tokens[index].duplicate());
        index += 1;
    }
    assert(token_views(copies@) =~= token_views(tokens@));
    copies
}

/// The ranks that order tokens by falling likelihood.
pub open spec fn falling_ranks(tokens: Seq<TokenView>) -> Seq<i64> {
    tokens.map_values(|token: TokenView| (-1 - token.logprob) as i64)
}

/// Tokens with the likeliest first; equally likely ones stay in order.
pub open spec fn likeliest_first(tokens: Seq<TokenView>) -> Seq<TokenView> {
    arranged(tokens, falling_ranks(tokens))
}

/// Whether a token is among its alternatives: one of them has its text, and is nearly as likely.
pub open spec fn is_listed(
    selected: TokenView,
    alternatives: Seq<TokenView>,
    near: Seq<bool>,
) -> bool {
    exists|i: int|
        0 <= i < alternatives.len() && (#[trigger] alternatives[i]).token == selected.token
            && near[i]
}

/// How many of the first tokens are not less likely than a given rank.
pub open spec fn count_not_below(logprob: i64, tokens: Seq<TokenView>) -> int
    decreases tokens.len(),
{
    if tokens.len() == 0 || logprob > tokens[0].logprob {
        0
    } else {
        1 + count_not_below(logprob, tokens.drop_first())
    }
}

/// What the tokens at a place say.
pub struct TokensView {
    pub selected: TokenView,
    pub alternatives: Seq<TokenView>,
    pub all: Seq<TokenView>,
}

/// A token with its alternatives. `near` says of each alternative whether it is nearly as likely as
/// the token that was chosen. All of them together stand in one list, the likeliest first, with the
/// chosen token behind alternatives that are as likely; it is not added where it is one of them.
pub open spec fn tokens_of(
    selected: TokenView,
    alternatives: Seq<TokenView>,
    near: Seq<bool>,
) -> TokensView {
    let in_order = likeliest_first(alternatives);
    TokensView {
        selected,
        alternatives: in_order,
        all: if is_listed(selected, alternatives, near) {
            in_order
        } else {
            in_order.insert(count_not_below(selected.logprob, in_order), selected)
        },
    }
}

/// The token that was chosen at a place, and the alternatives.
#[derive(Debug)]
pub struct TokenLogProbs {
    selected: TokenLogprob,
    alternatives: Vec<TokenLogprob>,
    all_sorted: Vec<TokenLogprob>,
}

impl View for TokenLogProbs {
    type V = TokensView;

    closed spec fn view(&self) -> TokensView {
        TokensView {
            selected: self.selected@,
            alternatives: token_views(self.alternatives@),
            all: token_views(self.all_sorted@),
        }
    }
}

fn reverse_ranks(tokens: &Vec<TokenLogprob>) -> (ranks: Vec<i64>)
    ensures
        ranks@ == falling_ranks(token_views(tokens@)),
{
    let mut ranks: Vec<i64> = Vec::new();
    let mut index: usize = 0;
    while index < tokens.len()
        invariant
            index <= tokens@.len(),
            ranks@ =~= falling_ranks(token_views(tokens@)).take(index as int),
        decreases tokens@.len() - index,
    {
        ranks.push(-1 - tokens[index].logprob);
        index += 1;
    }
    assert(ranks@ =~= falling_ranks(token_views(tokens@)));
    ranks
}

fn has_token(token: &str, tokens: &Vec<TokenLogprob>, near: &Vec<bool>) -> (found: bool)
    requires
        near@.len() == tokens@.len(),
    ensures
        found == exists|i: int|
            0 <= i < tokens@.len() && (#[trigger] token_views(tokens@)[i]).token == token@
                && near@[i],
{
    let mut index: usize = 0;
    while index < tokens.len()
        invariant
            index <= tokens@.len(),
            near@.len() == tokens@.len(),
            forall|i: int|
                0 <= i < index ==> !((#[trigger] token_views(tokens@)[i]).token == token@
                    && near@[i]),
        decreases tokens@.len() - index,
    {
        if near[index] && same_text(tokens[index].token.as_str(), token) {
            assert(token_views(tokens@)[index as int].token == token@);
            return true;
        }
        index += 1;
    }
    false
}

/// The first tokens in a list are not below a rank, and the next one is.
proof fn lemma_count_not_below(logprob: i64, tokens: Seq<TokenView>, count: int)
    requires
        0 <= count <= tokens.len(),
        forall|i: int| 0 <= i < count ==> logprob <= (#[trigger] tokens[i]).logprob,
        count < tokens.len() ==> logprob > tokens[count].logprob,
    ensures
        count_not_below(logprob, tokens) == count,
    decreases count,
{
    if count > 0 {
        assert(logprob <= tokens[0].logprob);
        let rest = tokens.drop_first();
        assert forall|i: int| 0 <= i < count - 1 implies logprob <= (#[trigger] rest[i]).logprob by {
            assert(rest[i] == tokens[i + 1]);
        }
        lemma_count_not_below(logprob, rest, count - 1);
    }
}

fn place_among(logprob: i64, tokens: &Vec<TokenLogprob>) -> (place: usize)
    ensures
        place == count_not_below(logprob, token_views(tokens@)),
        place <= tokens@.len(),
{
    let mut place: usize = 0;
    while place < tokens.len() && logprob <= tokens[place].logprob
        invariant
            place <= tokens@.len(),
            forall|i: int| 0 <= i < place ==> logprob <= (#[trigger] tokens@[i]).logprob,
        ensures
            place < tokens@.len() ==> logprob > tokens@[place as int].logprob,
        decreases tokens@.len() - place,
    {
        place += 1;
    }
    proof {
        let views = token_views(tokens@);
        assert forall|i: int| 0 <= i < place implies logprob <= (#[trigger] views[i]).logprob by {
            assert(views[i] == tokens@[i]@);
        }
        lemma_count_not_below(logprob, views, place as int);
    }
    place
}

impl TokenLogProbs {
    /// Puts a token that was chosen in order with its alternatives.
    pub fn new(
        selected: TokenLogprob,
        alternatives: Vec<TokenLogprob>,
        near: &Vec<bool>,
    ) -> (tokens: Self)
        requires
            near@.len() == alternatives@.len(),
        ensures
            tokens@ == tokens_of(selected@, token_views(alternatives@), near@),
    {
        let listed = has_token(selected.token.as_str(), &alternatives, near);
        let ghost count: usize = alternatives.len();
        let ranks = reverse_ranks(&alternatives);
        let ghost given = alternatives@;
        let alternatives = arrange(alternatives, &ranks);
        proof {
            lemma_views_arranged(given, ranks@);
        }
        let mut all_sorted = duplicate_tokens(alternatives.as_slice());
        if !listed {
            let place = place_among(selected.logprob, &alternatives);
            let ghost before = all_sorted@;
            all_sorted.insert(place, selected.duplicate());
            assert(token_views(all_sorted@) =~= token_views(before).insert(
                place as int,
                selected@,
            ));
        }
        TokenLogProbs { selected, alternatives, all_sorted }
    }

    /// The token that was chosen.
    pub fn selected_token(&self) -> (token: &TokenLogprob)
        ensures
            token@ == self@.selected,
    {
        &self.selected
    }

    /// The alternatives, the likeliest first.
    pub fn alternative_tokens(&self) -> (tokens: &[TokenLogprob])
        ensures
            token_views(tokens@) == self@.alternatives,
    {
        self.alternatives.as_slice()
    }

    /// The chosen token and the alternatives, the likeliest first.
    pub fn all_tokens(&self) -> (tokens: &[TokenLogprob])
        ensures
            token_views(tokens@) == self@.all,
    {
        self.all_sorted.as_slice()
    }

    /// The chosen token and the alternatives, the likeliest first, for good.
    pub(crate) fn into_all_tokens(self) -> (tokens: Vec<TokenLogprob>)
        ensures
            token_views(tokens@) == self@.all,
    {
        self.all_sorted
    }
}

/// Putting tokens in order puts what they say in order.
proof fn lemma_views_arranged(tokens: Seq<TokenLogprob>, ranks: Seq<i64>)
    requires
        ranks.len() == tokens.len(),
        ranks.len() <= usize::MAX,
    ensures
        token_views(arranged(tokens, ranks)) == arranged(token_views(tokens), ranks),
{
    law_arranged(tokens, ranks);
    assert(token_views(arranged(tokens, ranks)) =~= arranged(token_views(tokens), ranks));
}

/// All tokens at a place stand by falling likelihood.
pub proof fn law_all_tokens_fall(
    selected: TokenView,
    alternatives: Seq<TokenView>,
    near: Seq<bool>,
    first: int,
    second: int,
)
    requires
        alternatives.len() <= usize::MAX,
        0 <= first < second < tokens_of(selected, alternatives, near).all.len(),
    ensures
        tokens_of(selected, alternatives, near).all[first].logprob >= tokens_of(
            selected,
            alternatives,
            near,
        ).all[second].logprob,
{
    let ranks = falling_ranks(alternatives);
    law_arranged(alternatives, ranks);
    let order = order_of(ranks);
    let in_order = likeliest_first(alternatives);
    assert forall|i: int, j: int| 0 <= i < j < in_order.len() implies (#[trigger] in_order[i]).logprob
        >= (#[trigger] in_order[j]).logprob by {
        assert(ranks_before(ranks, order[i], order[j]));
    }
    let place = count_not_below(selected.logprob, in_order);
    lemma_counted(selected.logprob, in_order);
    let all = tokens_of(selected, alternatives, near).all;
    if !is_listed(selected, alternatives, near) {
        let old_first = if first < place {
            first
        } else {
            first - 1
        };
        let old_second = if second < place {
            second
        } else {
            second - 1
        };
        if first != place {
            assert(all[first] == in_order[old_first]);
        }
        if second != place {
            assert(all[second] == in_order[old_second]);
        }
        if first == place && second > place + 1 {
            assert(in_order[place].logprob >= in_order[old_second].logprob);
        }
    }
}

/// Every alternative is among all tokens at a place, and so is the chosen token unless an
/// alternative stands for it.
pub proof fn law_all_tokens_are_there(
    selected: TokenView,
    alternatives: Seq<TokenView>,
    near: Seq<bool>,
    token: TokenView,
)
    requires
        alternatives.len() <= usize::MAX,
    ensures
        tokens_of(selected, alternatives, near).all.contains(token) <==> alternatives.contains(
            token,
        ) || (token == selected && !is_listed(selected, alternatives, near)),
{
    let ranks = falling_ranks(alternatives);
    law_arranged(alternatives, ranks);
    let in_order = likeliest_first(alternatives);
    let place = count_not_below(selected.logprob, in_order);
    lemma_counted(selected.logprob, in_order);
    let all = tokens_of(selected, alternatives, near).all;
    if !is_listed(selected, alternatives, near) {
        assert(all[place] == selected);
        if in_order.contains(token) {
            let i = choose|i: int| 0 <= i < in_order.len() && in_order[i] == token;
            if i < place {
                assert(all[i] == token);
            } else {
                assert(all[i + 1] == token);
            }
        }
        if all.contains(token) && token != selected {
            let i = choose|i: int| 0 <= i < all.len() && all[i] == token;
            if i < place {
                assert(in_order[i] == token);
            } else {
                assert(in_order[i - 1] == token);
            }
        }
    }
}

/// What the count of tokens that are not below a rank says of them.
pub proof fn lemma_counted(logprob: i64, tokens: Seq<TokenView>)
    ensures
        0 <= count_not_below(logprob, tokens) <= tokens.len(),
        forall|i: int|
            0 <= i < count_not_below(logprob, tokens) ==> logprob <= (#[trigger] tokens[i]).logprob,
        count_not_below(logprob, tokens) < tokens.len() ==> logprob > tokens[count_not_below(
            logprob,
            tokens,
        )].logprob,
    decreases tokens.len(),
{
    if tokens.len() > 0 && logprob <= tokens[0].logprob {
        let rest = tokens.drop_first();
        lemma_counted(logprob, rest);
        assert forall|i: int| 0 <= i < count_not_below(logprob, tokens) implies logprob <= (
        #[trigger] tokens[i]).logprob by {
            if i > 0 {
                assert(rest[i - 1] == tokens[i]);
            }
        }
    }
}

/// A token of an answer as it was reported, with alternatives; `near` says of each of them whether
/// it is nearly as likely as the token.
#[derive(Debug)]
pub struct ReportedToken {
    pub selected: TokenLogprob,
    pub top_logprobs: Vec<TokenLogprob>,
    pub near: Vec<bool>,
}

/// A part of the answer to one choice.
#[derive(Debug)]
pub struct ReportedChoice {
    pub index: u32,
    pub content: Option<Vec<ReportedToken>>,
}

impl ReportedChoice {
    /// Whether something is said of every alternative.
    pub open spec fn wf(self) -> bool {
        self.content matches Some(content) ==> forall|i: int|
            0 <= i < content@.len() ==> (#[trigger] content@[i]).near@.len()
                == content@[i].top_logprobs@.len()
    }

    /// The tokens of the part.
    pub open spec fn tokens(self) -> Seq<TokensView> {
        match self.content {
            Some(content) => content@.map_values(
                |token: ReportedToken|
                    tokens_of(token.selected@, token_views(token.top_logprobs@), token.near@),
            ),
            None => Seq::empty(),
        }
    }
}

/// The tokens of each choice of an answer. Where a choice is reported twice, the last part counts.
pub open spec fn tokens_by_choice(choices: Seq<ReportedChoice>) -> Map<u32, Seq<TokensView>>
    decreases choices.len(),
{
    if choices.len() == 0 {
        Map::empty()
    } else {
        tokens_by_choice(choices.drop_last()).insert(choices.last().index, choices.last().tokens())
    }
}

/// What the tokens at some places say.
pub open spec fn places_views(places: Seq<TokenLogProbs>) -> Seq<TokensView> {
    places.map_values(|place: TokenLogProbs| place@)
}

/// What the tokens of each choice say.
pub open spec fn choices_views(choices: Map<u32, Vec<TokenLogProbs>>) -> Map<u32, Seq<TokensView>> {
    choices.map_values(|places: Vec<TokenLogProbs>| places_views(places@))
}

fn order_reported(content: Option<Vec<ReportedToken>>) -> (places: Vec<TokenLogProbs>)
    requires
        (ReportedChoice { index: 0, content }).wf(),
    ensures
        places_views(places@) == (ReportedChoice { index: 0, content }).tokens(),
{
    let mut places: Vec<TokenLogProbs> = Vec::new();
    let ghost reported = ReportedChoice { index: 0, content };
    if let Some(content) = content {
        let ghost all = content@;
        for token in iter: content
            invariant
                iter.seq() == all,
                forall|i: int|
                    0 <= i < all.len() ==> (#[trigger] all[i]).near@.len()
                        == all[i].top_logprobs@.len(),
                reported.content matches Some(content) && content@ == all,
                places_views(places@) =~= reported.tokens().take(iter.index() as int),
        {
            proof {
                assert(token == all[iter.index() as int]);
            }
            let ghost before = places@;
            let ghost given = token;
            places.push(TokenLogProbs::new(token.selected, token.top_logprobs, &token.near));
            assert(places_views(places@) =~= places_views(before).push(
                tokens_of(given.selected@, token_views(given.top_logprobs@), given.near@),
            ));
        }
        assert(reported.tokens().take(all.len() as int) =~= reported.tokens());
    } else {
        assert(places_views(places@) =~= Seq::empty());
    }
    places
}

/// Collects the tokens of each choice of an answer. A choice that comes without tokens has none.
pub fn extract_logprobs_by_choice(choices: Vec<ReportedChoice>) -> (extracted: HashMap<
    u32,
    Vec<TokenLogProbs>,
>)
    requires
        forall|i: int| 0 <= i < choices@.len() ==> (#[trigger] choices@[i]).wf(),
    ensures
        choices_views(extracted@) == tokens_by_choice(choices@),
{
    let mut extracted: HashMap<u32, Vec<TokenLogProbs>> = HashMap::new();
    let ghost all = choices@;
    assert(choices_views(extracted@) =~= tokens_by_choice(all.take(0)));
    for choice in iter: choices
        invariant
            iter.seq() == all,
            forall|i: int| 0 <= i < all.len() ==> (#[trigger] all[i]).wf(),
            choices_views(extracted@) == tokens_by_choice(all.take(iter.index() as int)),
    {
        let ghost before = extracted@;
        let ghost at = iter.index() as int;
        proof {
            assert(choice == all[at]);
            lemma_take_next(all, at);
        }
        let ghost given = choice;
        let places = order_reported(choice.content);
        assert(places_views(places@) == given.tokens());
        extracted.insert(choice.index, places);
        assert(choices_views(extracted@) =~= choices_views(before).insert(
            given.index,
            given.tokens(),
        ));
    }
    assert(all.take(all.len() as int) =~= all);
    extracted
}

/// Why the choices of an answer cannot be put in a row: there should be as many as the greatest
/// number among them says.
#[derive(Clone, Debug, PartialEq, Eq)]
pub struct MissingChoices {
    pub expected: usize,
    /// Those that are there, in some order.
    pub found: Vec<u32>,
}

/// Numbers in decimal.
pub open spec fn decimal_texts(numbers: Seq<u32>) -> Seq<Seq<char>> {
    numbers.map_values(|number: u32| decimal_text(number as nat))
}

fn write_decimals(numbers: &Vec<u32>) -> (texts: Vec<String>)
    ensures
        views(texts@) == decimal_texts(numbers@),
{
    let mut texts: Vec<String> = Vec::new();
    let mut index: usize = 0;
    while index < numbers.len()
        invariant
            index <= numbers@.len(),
            views(texts@) =~= decimal_texts(numbers@).take(index as int),
        decreases numbers@.len() - index,
    {
        let ghost before = texts@;
        texts.push(decimal(numbers[index] as u64));
        assert(views(texts@) =~= views(before).push(decimal_text(numbers@[index as int] as nat)));
        index += 1;
    }
    assert(views(texts@) =~= decimal_texts(numbers@));
    texts
}

impl MissingChoices {
    /// What to tell of it.
    pub fn message(&self) -> (text: String)
        ensures
            text@ == "Missing choice indices: expected "@ + decimal_text(self.expected as nat)
                + " choices [0, "@ + decimal_text(self.expected as nat) + "), but found "@
                + decimal_text(self.found@.len()) + " choices: ["@ + joined(
                decimal_texts(self.found@),
                ", "@,
            ) + "]"@,
    {
        let expected = decimal(self.expected as u64);
        let found = write_decimals(&self.found);
        let mut text = join("Missing choice indices: expected ", expected.as_str());
        text.append(" choices [0, ");
        text.append(expected.as_str());
        text.append("), but found ");
        text.append(decimal(self.found.len() as u64).as_str());
        text.append(" choices: [");
        text.append(join_all(found.as_slice(), ", ").as_str());
        text.append("]");
        text
    }
}

/// Whether a number is the greatest under which a choice is known.
pub open spec fn is_greatest<T>(choices: Map<u32, T>, greatest: u32) -> bool {
    choices.contains_key(greatest) && forall|k: u32| #[trigger]
        choices.contains_key(k) ==> k <= greatest
}

/// The keys of a map, once each, in some order.
pub(crate) fn keys_of<T>(map: &HashMap<u32, T>) -> (keys: Vec<u32>)
    ensures
        keys@.no_duplicates(),
        keys@.len() == map@.len(),
        forall|key: u32| #[trigger] keys@.contains(key) <==> map@.contains_key(key),
{
    let mut keys: Vec<u32> = Vec::new();
    let ghost walked = vstd::std_specs::iter::IteratorSpec::remaining(
        &vstd::std_specs::hash::spec_keys_iter(map),
    );
    for key in iter: map.keys()
        invariant
            iter.seq() == walked,
            keys@ =~= walked.unref().take(iter.index() as int),
    {
        keys.push(*key);
    }
    proof {
        assert(keys@ =~= walked.unref());
        assert(keys@.no_duplicates()) by {
            assert forall|i: int, j: int|
                0 <= i < keys@.len() && 0 <= j < keys@.len() && i != j implies keys@[i]
                != keys@[j] by {
                assert(walked[i] != walked[j]);
            }
        }
        assert forall|key: u32| #[trigger] keys@.contains(key) <==> map@.contains_key(key) by {
            assert(keys@.to_set().contains(key) <==> keys@.contains(key));
        }
    }
    keys
}

fn greatest_key(keys: &Vec<u32>) -> (greatest: u32)
    requires
        keys@.len() > 0,
    ensures
        keys@.contains(greatest),
        forall|key: u32| #[trigger] keys@.contains(key) ==> key <= greatest,
{
    let mut greatest: u32 = keys[0];
    let mut index: usize = 1;
    while index < keys.len()
        invariant
            1 <= index <= keys@.len(),
            keys@.contains(greatest),
            forall|i: int| 0 <= i < index ==> #[trigger] keys@[i] <= greatest,
        decreases keys@.len() - index,
    {
        if keys[index] > greatest {
            greatest = keys[index];
        }
        index += 1;
    }
    greatest
}

/// Where there are as many keys as the greatest one says, all up to it are there.
proof fn lemma_all_keys<T>(choices: Map<u32, T>, greatest: u32)
    requires
        choices.dom().finite(),
        is_greatest(choices, greatest),
    ensures
        choices.len() <= greatest + 1,
        choices.len() == greatest + 1 ==> forall|k: u32|
            k <= greatest ==> #[trigger] choices.contains_key(k),
{
    let all = Set::new(|k: u32| k <= greatest);
    lemma_first_choices((greatest + 1) as nat);
    assert(all =~= Set::new(|k: u32| k < (greatest + 1) as nat));
    assert(choices.dom().subset_of(all));
    vstd::set_lib::lemma_len_subset(choices.dom(), all);
    if choices.len() == greatest + 1 {
        vstd::set_lib::lemma_subset_equality(choices.dom(), all);
        assert forall|k: u32| k <= greatest implies #[trigger] choices.contains_key(k) by {
            assert(all.contains(k));
        }
    }
}

proof fn lemma_first_choices(n: nat)
    requires
        n <= u32::MAX + 1,
    ensures
        Set::new(|k: u32| k < n).finite(),
        Set::new(|k: u32| k < n).len() == n,
    decreases n,
{
    let all = Set::new(|k: u32| k < n);
    if n == 0 {
        assert(all =~= Set::<u32>::empty());
    } else {
        let fewer = Set::new(|k: u32| k < (n - 1) as nat);
        lemma_first_choices((n - 1) as nat);
        assert(all =~= fewer.insert((n - 1) as u32));
    }
}

/// Whether each choice in a row stands at its number.
pub open spec fn in_a_row<T>(row: Seq<T>, choices: Map<u32, T>) -> bool {
    forall|k: u32|
        k < row.len() ==> choices.contains_key(k) && #[trigger] row[k as int] == choices[k]
}

/// Puts the choices of an answer in a row, by number; none may be missing.
pub fn validate_and_flatten_choices<T>(choices: HashMap<u32, T>) -> (flattened: Result<
    Vec<T>,
    MissingChoices,
>)
    requires
        !choices@.contains_key(u32::MAX),
    ensures
        match flattened {
            Ok(row) => {
                &&& row@.len() == choices@.len()
                &&& in_a_row(row@, choices@)
            },
            Err(missing) => {
                &&& missing.expected != choices@.len()
                &&& missing.found@.no_duplicates()
                &&& forall|k: u32| #[trigger]
                    missing.found@.contains(k) <==> choices@.contains_key(k)
                &&& exists|greatest: u32| #[trigger]
                    is_greatest(choices@, greatest) && missing.expected == greatest + 1
            },
        },
{
    let mut choices = choices;
    let ghost all = choices@;
    if choices.len() == 0 {
        return Ok(Vec::new());
    }
    let keys = keys_of(&choices);
    let greatest = greatest_key(&keys);
    proof {
        assert(is_greatest(all, greatest)) by {
            assert forall|k: u32| #[trigger] all.contains_key(k) implies k <= greatest by {
                assert(keys@.contains(k));
            }
        }
        lemma_all_keys(all, greatest);
    }
    let expected: usize = (greatest + 1) as usize;
    if choices.len() != expected {
        return Err(MissingChoices { expected, found: keys });
    }
    let mut row: Vec<T> = Vec::new();
    let mut next: u32 = 0;
    while next <= greatest
        invariant
            greatest < u32::MAX,
            next <= greatest + 1,
            row@.len() == next,
            forall|k: u32| k <= greatest ==> #[trigger] all.contains_key(k),
            forall|k: u32|
                next <= k <= greatest ==> #[trigger] choices@.contains_key(k) && choices@[k]
                    == all[k],
            forall|k: u32| k < next ==> #[trigger] row@[k as int] == all[k],
        decreases greatest + 1 - next,
    {
        assert(choices@.contains_key(next));
        if let Some(choice) = choices.remove(&next) {
            row.push(choice);
        }
        next += 1;
    }
    Ok(row)
}

} // verus!
