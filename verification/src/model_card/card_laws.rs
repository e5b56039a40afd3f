//! What a model's card is made of, and what its checksum takes in.
use crate::model_card::artifacts::{
    debug_text, CheckedFile, FileLocation, GenerationConfig, ModelInfoType, PromptFormatterArtifact,
    TokenizerKind,
};
use crate::model_card::hf_config::{
    listed_tokens, read_tokens, ConfigError, ConfigFiles, HFConfig, TokenField, TokenIdType,
};
use crate::model_card::{
    blake3_hex, check_valid_local_repo_path, files, CardError, ModelDeploymentCard, ModelInput,
    PromptContextMixin, RepoFiles, TokenizerError,
};
use crate::text::joined;
use vstd::prelude::*;
use vstd::utf8::encode_utf8;

verus! {

/// A checksum that is known stays. One that is not is the hash of the bytes of the card: its name,
/// the checksums of its files, from the model's configuration on to how it generates, what is mixed
/// into its prompts, and the length of its context and the size of its blocks, four bytes each with
/// the most significant first. What is not there adds nothing.
pub proof fn law_checksum_takes_the_card_in(
    card: &mut ModelDeploymentCard,
    sum: String,
    info: Seq<u8>,
    tokenizer: Seq<u8>,
    formatter: Seq<u8>,
    template: Seq<u8>,
    generation: Seq<u8>,
    mixed_in: Seq<u8>,
    length: Seq<u8>,
    block: Seq<u8>,
)
    requires
        call_ensures(ModelDeploymentCard::mdcsum, (card,), sum),
        match old(card).model_info {
            Some(ModelInfoType::HfConfigJson(file)) => info == encode_utf8(file.checksum@),
            None => info.len() == 0,
        },
        match old(card).tokenizer {
            Some(TokenizerKind::HfTokenizerJson(file)) => tokenizer == encode_utf8(file.checksum@),
            None => tokenizer.len() == 0,
        },
        match old(card).prompt_formatter {
            Some(PromptFormatterArtifact::HfTokenizerConfigJson(file)) => formatter == encode_utf8(
                file.checksum@,
            ),
            Some(PromptFormatterArtifact::HfChatTemplate(file)) => formatter == encode_utf8(
                file.checksum@,
            ),
            None => formatter.len() == 0,
        },
        match old(card).chat_template_file {
            Some(PromptFormatterArtifact::HfTokenizerConfigJson(file)) => template == encode_utf8(
                file.checksum@,
            ),
            Some(PromptFormatterArtifact::HfChatTemplate(file)) => template == encode_utf8(
                file.checksum@,
            ),
            None => template.len() == 0,
        },
        match old(card).gen_config {
            Some(GenerationConfig::HfGenerationConfigJson(file)) => generation == encode_utf8(
                file.checksum@,
            ),
            None => generation.len() == 0,
        },
        match old(card).prompt_context {
            Some(context) => mixed_in == encode_utf8(
                "["@ + joined(
                    context@.map_values(
                        |mixin: PromptContextMixin|
                            match mixin {
                                PromptContextMixin::OaiChat => "OaiChat"@,
                                PromptContextMixin::Llama3DateTime => "Llama3DateTime"@,
                            },
                    ),
                    ", "@,
                ) + "]"@,
            ),
            None => mixed_in.len() == 0,
        },
        length.len() == 4,
        length[0] * 0x100_0000 + length[1] * 0x1_0000 + length[2] * 0x100 + length[3] == old(
            card).context_length,
        block.len() == 4,
        block[0] * 0x100_0000 + block[1] * 0x1_0000 + block[2] * 0x100 + block[3] == old(
            card).kv_cache_block_size,
    ensures
        old(card).checksum matches Some(known) ==> sum@ == known@,
        old(card).checksum is None ==> sum@ == blake3_hex(
            encode_utf8(old(card).display_name@) + info + tokenizer + formatter + template
                + generation + mixed_in + length + block,
        ),
        final(card).checksum matches Some(kept) && kept@ == sum@,
        final(card).display_name == old(card).display_name,
        final(card).context_length == old(card).context_length,
{
    let before = *old(card);
    let all = files(before);
    lemma_be_bytes(before.context_length, length);
    lemma_be_bytes(before.kv_cache_block_size, block);
    lemma_sum_bytes(all[0], info);
    lemma_sum_bytes(all[1], tokenizer);
    lemma_sum_bytes(all[2], formatter);
    lemma_sum_bytes(all[3], template);
    lemma_sum_bytes(all[4], generation);
    if let Some(context) = before.prompt_context {
        assert(context@.map_values(|mixin: PromptContextMixin| mixin.name())
            =~= context@.map_values(
            |mixin: PromptContextMixin|
                match mixin {
                    PromptContextMixin::OaiChat => "OaiChat"@,
                    PromptContextMixin::Llama3DateTime => "Llama3DateTime"@,
                },
        ));
    } else {
        lemma_no_bytes(mixed_in);
    }
    if before.checksum is None {
        assert(crate::model_card::card_bytes(before) == encode_utf8(before.display_name@) + info
            + tokenizer + formatter + template + generation + mixed_in + length + block);
    }
}

proof fn lemma_no_bytes(bytes: Seq<u8>)
    requires
        bytes.len() == 0,
    ensures
        bytes == Seq::<u8>::empty(),
{
    assert(bytes =~= Seq::<u8>::empty());
}

proof fn lemma_sum_bytes(file: Option<CheckedFile>, bytes: Seq<u8>)
    requires
        match file {
            Some(file) => bytes == encode_utf8(file.checksum@),
            None => bytes.len() == 0,
        },
    ensures
        bytes == crate::model_card::sum_bytes(file),
{
    if file is None {
        lemma_no_bytes(bytes);
    }
}

proof fn lemma_be_bytes(number: u32, bytes: Seq<u8>)
    requires
        bytes.len() == 4,
        bytes[0] * 0x100_0000 + bytes[1] * 0x1_0000 + bytes[2] * 0x100 + bytes[3] == number,
    ensures
        bytes == crate::model_card::be_bytes(number),
{
    let (first, second, third, last) = (bytes[0], bytes[1], bytes[2], bytes[3]);
    assert(first == number / 0x100_0000 && second == number / 0x1_0000 % 0x100 && third == number
        / 0x100 % 0x100 && last == number % 0x100) by (bit_vector)
        requires
            first * 0x100_0000 + second * 0x1_0000 + third * 0x100 + last == number,
    ;
    let wanted = crate::model_card::be_bytes(number);
    assert(wanted[0] == first && wanted[1] == second && wanted[2] == third && wanted[3] == last);
    assert(bytes =~= wanted);
}

/// Two cards are the same exactly where their checksums are.
pub proof fn law_same_cards_have_the_same_checksum(
    card: &mut ModelDeploymentCard,
    other: &mut ModelDeploymentCard,
    first: &mut ModelDeploymentCard,
    second: &mut ModelDeploymentCard,
    sum: String,
    other_sum: String,
    same: bool,
)
    requires
        *old(first) == *old(card),
        *old(second) == *old(other),
        call_ensures(ModelDeploymentCard::mdcsum, (first,), sum),
        call_ensures(ModelDeploymentCard::mdcsum, (second,), other_sum),
        call_ensures(ModelDeploymentCard::same_as, (card, other), same),
    ensures
        same <==> sum@ == other_sum@,
{
}

/// A card made from a directory takes its context from the positions of the model, or else from the
/// length of its tokenizer, and else has none; it has each file that is there, a custom template
/// before the model's own, and nothing else.
pub proof fn law_cards_hold_what_is_in_the_directory(
    path: &str,
    found: RepoFiles,
    card: ModelDeploymentCard,
)
    requires
        call_ensures(ModelDeploymentCard::from_repo_checkout, (path, found), Ok(card)),
    ensures
        card.display_name@ == path@,
        found.max_position_embeddings matches Some(length) ==> card.context_length == length,
        found.max_position_embeddings is None ==> (found.model_max_length matches Some(length)
            ==> card.context_length == length),
        found.max_position_embeddings is None && found.model_max_length is None
            ==> card.context_length == 0,
        found.config matches Ok(file) && card.model_info == Some(ModelInfoType::HfConfigJson(file)),
        found.tokenizer matches Ok(file) && card.tokenizer == Some(
            TokenizerKind::HfTokenizerJson(file),
        ),
        found.generation_config matches Ok(file) ==> card.gen_config == Some(
            GenerationConfig::HfGenerationConfigJson(file),
        ),
        found.generation_config is Err ==> card.gen_config is None,
        found.tokenizer_config matches Ok(file) ==> card.prompt_formatter == Some(
            PromptFormatterArtifact::HfTokenizerConfigJson(file),
        ),
        found.tokenizer_config is Err ==> card.prompt_formatter is None,
        found.custom_template matches Some(custom) ==> custom.exists && custom.text is Ok && (
        custom.file matches Ok(file) && card.chat_template_file == Some(
            PromptFormatterArtifact::HfChatTemplate(file),
        )),
        found.custom_template is None ==> (found.chat_template matches Ok(file)
            ==> card.chat_template_file == Some(PromptFormatterArtifact::HfChatTemplate(file))),
        found.custom_template is None && found.chat_template is Err
            ==> card.chat_template_file is None,
        card.checksum is None && card.prompt_context is None && card.user_data is None,
        card.kv_cache_block_size == 0 && card.migration_limit == 0,
        card.model_input == ModelInput::Text,
{
}

/// A directory is described exactly where its configuration and its tokenizer can be read, and a
/// custom template too if there is one; a template that is missing is told before anything else.
pub proof fn law_directories_without_needed_files_are_refused(
    path: &str,
    found: RepoFiles,
    card: Result<ModelDeploymentCard, CardError>,
)
    requires
        call_ensures(ModelDeploymentCard::from_repo_checkout, (path, found), card),
    ensures
        card is Ok <==> found.config is Ok && found.tokenizer is Ok && (
        found.custom_template matches Some(custom) ==> custom.exists && custom.text is Ok
            && custom.file is Ok),
        card matches Err(error) ==> (found.custom_template matches Some(custom) ==> (
        !custom.exists ==> error is NoTemplate)),
        card matches Err(error) ==> (found.custom_template is None ==> error is File),
{
}

/// A path serves as a model exactly where it is there and is a directory.
pub proof fn law_models_are_directories(
    path: &str,
    exists: bool,
    is_dir: bool,
    checked: Result<(), CardError>,
)
    requires
        call_ensures(check_valid_local_repo_path, (path, exists, is_dir), checked),
    ensures
        checked is Ok <==> exists && is_dir,
        checked matches Err(error) ==> (error is NoPath <==> !exists),
{
}

/// A card has all its files here exactly where none of them lies elsewhere.
pub proof fn law_cards_are_local_where_their_files_are(card: &ModelDeploymentCard, local: bool)
    requires
        call_ensures(ModelDeploymentCard::has_local_files, (card,), local),
    ensures
        local <==> {
            &&& card.model_info matches Some(ModelInfoType::HfConfigJson(file))
                ==> file.location is Path
            &&& card.tokenizer matches Some(TokenizerKind::HfTokenizerJson(file))
                ==> file.location is Path
            &&& card.prompt_formatter matches Some(
                PromptFormatterArtifact::HfTokenizerConfigJson(file),
            ) ==> file.location is Path
            &&& card.prompt_formatter matches Some(PromptFormatterArtifact::HfChatTemplate(file))
                ==> file.location is Path
            &&& card.chat_template_file matches Some(
                PromptFormatterArtifact::HfTokenizerConfigJson(file),
            ) ==> file.location is Path
            &&& card.chat_template_file matches Some(PromptFormatterArtifact::HfChatTemplate(file))
                ==> file.location is Path
            &&& card.gen_config matches Some(GenerationConfig::HfGenerationConfigJson(file))
                ==> file.location is Path
        },
{
    let all = files(*card);
    if local {
        assert(all[0] matches Some(file) ==> file.local());
        assert(all[1] matches Some(file) ==> file.local());
        assert(all[2] matches Some(file) ==> file.local());
        assert(all[3] matches Some(file) ==> file.local());
        assert(all[4] matches Some(file) ==> file.local());
    } else {
        let i = choose|i: int|
            0 <= i < 5 && !(#[trigger] all[i] matches Some(file) ==> file.local());
        assert(i == 0 || i == 1 || i == 2 || i == 3 || i == 4);
    }
}

/// A file that was brought to a directory lies there under its name; name and checksum stay.
pub proof fn law_brought_files_keep_name_and_checksum(file: &mut CheckedFile, dir: &str)
    requires
        call_ensures(CheckedFile::update_dir, (file, dir), ()),
    ensures
        final(file).file_name@ == old(file).file_name@,
        final(file).checksum@ == old(file).checksum@,
        final(file).location matches FileLocation::Path(path) && (if dir@.len() == 0 || dir@.last()
            == '/' {
            path@ == dir@ + old(file).file_name@
        } else {
            path@ == dir@ + "/"@ + old(file).file_name@
        }),
{
}

/// The tokenizer of a card is found where its file lies here; elsewhere it is told by its address,
/// and a card without one has none.
pub proof fn law_tokenizers_are_read_from_here(
    card: &ModelDeploymentCard,
    path: Result<String, TokenizerError>,
)
    requires
        call_ensures(ModelDeploymentCard::tokenizer_path, (card,), path),
    ensures
        card.tokenizer is None <==> path is Err && path->Err_0 is Blank,
        card.tokenizer matches Some(TokenizerKind::HfTokenizerJson(file)) ==> {
            &&& file.location matches FileLocation::Path(place) ==> (path matches Ok(told) && told@
                == place@)
            &&& file.location matches FileLocation::Url(place) ==> (path matches Err(
                TokenizerError::UrlBacked(told),
            ) && told@ == place@)
        },
{
}

proof fn lemma_listed(numbers: Seq<Option<u64>>, token: TokenIdType)
    ensures
        listed_tokens(numbers).contains(token) <==> exists|i: int|
            0 <= i < numbers.len() && (#[trigger] numbers[i] matches Some(number) && number
                % 0x1_0000_0000 == token),
        listed_tokens(numbers).len() <= numbers.len(),
    decreases numbers.len(),
{
    if numbers.len() > 0 {
        let before = numbers.drop_last();
        let last = numbers.len() - 1;
        lemma_listed(before, token);
        if let Some(number) = numbers.last() {
            crate::seqs::lemma_push_contains(
                listed_tokens(before),
                (number % 0x1_0000_0000) as TokenIdType,
                token,
            );
        }
        if exists|i: int|
            0 <= i < numbers.len() && (#[trigger] numbers[i] matches Some(number) && number
                % 0x1_0000_0000 == token) {
            let i = choose|i: int|
                0 <= i < numbers.len() && (#[trigger] numbers[i] matches Some(number) && number
                    % 0x1_0000_0000 == token);
            if i < last {
                assert(before[i] == numbers[i]);
            }
        }
        if exists|i: int|
            0 <= i < before.len() && (#[trigger] before[i] matches Some(number) && number
                % 0x1_0000_0000 == token) {
            let i = choose|i: int|
                0 <= i < before.len() && (#[trigger] before[i] matches Some(number) && number
                    % 0x1_0000_0000 == token);
            assert(numbers[i] == before[i]);
        }
        if listed_tokens(numbers).contains(token) && !listed_tokens(before).contains(token) {
            assert(numbers[last] matches Some(number) && number % 0x1_0000_0000 == token);
        }
    }
}

/// A single token is read as such and a list as those of its tokens that are numbers; of a number
/// that is too large the lower half counts. Anything else says nothing.
pub proof fn law_token_fields_are_read(
    field: &Option<TokenField>,
    tokens: Option<Vec<TokenIdType>>,
    token: TokenIdType,
)
    requires
        call_ensures(read_tokens, (field,), tokens),
    ensures
        tokens is Some <==> (*field matches Some(TokenField::Number(Some(number)))) || (
        *field matches Some(TokenField::List(numbers))),
        *field matches Some(TokenField::Number(Some(number))) ==> (tokens matches Some(tokens)
            && tokens@.len() == 1 && tokens@[0] == number % 0x1_0000_0000),
        *field matches Some(TokenField::List(numbers)) ==> (tokens matches Some(tokens) && (
        tokens@.contains(token) <==> exists|i: int|
            0 <= i < numbers@.len() && (#[trigger] numbers@[i] matches Some(number) && number
                % 0x1_0000_0000 == token))),
{
    if let Some(TokenField::List(numbers)) = *field {
        lemma_listed(numbers@, token);
    }
}

/// A configuration takes its first token from the text part of the model's file, or else from how
/// the model generates. Its last tokens are those of the model's file, or else of its text part, or
/// else of how the model generates. Without either it is refused, the first token being told first.
pub proof fn law_tokens_come_from_the_first_file_that_has_them(
    files: ConfigFiles,
    config: Result<HFConfig, ConfigError>,
    own: Option<Vec<TokenIdType>>,
    own_field: &Option<TokenField>,
    generation: Option<Vec<TokenIdType>>,
)
    requires
        call_ensures(HFConfig::from_files, (files,), config),
        files.eos_token_id is Some ==> *own_field == files.eos_token_id,
        files.eos_token_id is None ==> (files.text_config matches Some(text) ==> *own_field
            == text.eos_token_id),
        files.eos_token_id is None && files.text_config is None ==> *own_field
            == files.top_level.eos_token_id,
        call_ensures(read_tokens, (own_field,), own),
        call_ensures(read_tokens, (&files.generation_eos_token_id,), generation),
    ensures
        ({
            let text = match files.text_config {
                Some(text) => text,
                None => files.top_level,
            };
            let has_bos = text.bos_token_id is Some || files.generation_bos_token_id is Some;
            let has_eos = own is Some || generation is Some;
            &&& config is Ok <==> has_bos && has_eos
            &&& config matches Err(error) ==> (error is MissingBosToken <==> !has_bos) && (
            error is MissingEosToken <==> has_bos)
            &&& config matches Ok(config) ==> {
                &&& text.bos_token_id matches Some(token) ==> config.final_bos_token_id == token
                &&& text.bos_token_id is None ==> Some(config.final_bos_token_id)
                    == files.generation_bos_token_id
                &&& own matches Some(tokens) ==> config.final_eos_token_ids@ == tokens@
                &&& own is None ==> (generation matches Some(tokens)
                    && config.final_eos_token_ids@ == tokens@)
                &&& config.max_position_embeddings == text.max_position_embeddings
                &&& config.vocab_size == text.vocab_size
                &&& config.model_type@ == files.model_type@
            }
        }),
{
}

/// Bringing a card's files to a directory moves each of them there under its name, and leaves the
/// rest of the card as it is.
pub proof fn law_cards_are_brought_file_by_file(
    card: &mut ModelDeploymentCard,
    dir: &str,
    before: CheckedFile,
    file: &mut CheckedFile,
)
    requires
        call_ensures(ModelDeploymentCard::update_dir, (card, dir), ()),
        call_ensures(CheckedFile::update_dir, (file, dir), ()),
        *old(file) == before,
    ensures
        old(card).tokenizer == Some(TokenizerKind::HfTokenizerJson(before)) ==> (
        final(card).tokenizer matches Some(TokenizerKind::HfTokenizerJson(after))
            && after.file_name@ == final(file).file_name@ && after.checksum@ == final(file).checksum@
            && (after.location matches FileLocation::Path(place) && (
        final(file).location matches FileLocation::Path(other) && place@ == other@))),
        old(card).model_info == Some(ModelInfoType::HfConfigJson(before)) ==> (
        final(card).model_info matches Some(ModelInfoType::HfConfigJson(after))
            && after.file_name@ == final(file).file_name@ && after.checksum@ == final(file).checksum@
            && (after.location matches FileLocation::Path(place) && (
        final(file).location matches FileLocation::Path(other) && place@ == other@))),
        old(card).gen_config == Some(GenerationConfig::HfGenerationConfigJson(before)) ==> (
        final(card).gen_config matches Some(GenerationConfig::HfGenerationConfigJson(after))
            && after.file_name@ == final(file).file_name@ && after.checksum@ == final(file).checksum@
            && (after.location matches FileLocation::Path(place) && (
        final(file).location matches FileLocation::Path(other) && place@ == other@))),
        old(card).chat_template_file == Some(PromptFormatterArtifact::HfChatTemplate(before)) ==> (
        final(card).chat_template_file matches Some(PromptFormatterArtifact::HfChatTemplate(after))
            && after.file_name@ == final(file).file_name@ && after.checksum@ == final(file).checksum@
            && (after.location matches FileLocation::Path(place) && (
        final(file).location matches FileLocation::Path(other) && place@ == other@))),
        old(card).prompt_formatter == Some(PromptFormatterArtifact::HfTokenizerConfigJson(before))
            ==> (final(card).prompt_formatter matches Some(
            PromptFormatterArtifact::HfTokenizerConfigJson(after),
        ) && after.file_name@ == final(file).file_name@ && after.checksum@ == final(file).checksum@
            && (after.location matches FileLocation::Path(place) && (
        final(file).location matches FileLocation::Path(other) && place@ == other@))),
        final(card).display_name@ == old(card).display_name@,
        final(card).context_length == old(card).context_length,
        final(card).kv_cache_block_size == old(card).kv_cache_block_size,
        final(card).checksum == old(card).checksum,
        final(card).runtime_config == old(card).runtime_config,
{
    let earlier = files(*old(card));
    let later = files(*final(card));
    assert(match earlier[0] {
        Some(file) => later[0] matches Some(moved) && moved.brought_from(file, dir@),
        None => later[0] is None,
    });
    assert(match earlier[1] {
        Some(file) => later[1] matches Some(moved) && moved.brought_from(file, dir@),
        None => later[1] is None,
    });
    assert(match earlier[2] {
        Some(file) => later[2] matches Some(moved) && moved.brought_from(file, dir@),
        None => later[2] is None,
    });
    assert(match earlier[3] {
        Some(file) => later[3] matches Some(moved) && moved.brought_from(file, dir@),
        None => later[3] is None,
    });
    assert(match earlier[4] {
        Some(file) => later[4] matches Some(moved) && moved.brought_from(file, dir@),
        None => later[4] is None,
    });
}

/// A card with a name only has that name and nothing else; renaming a card changes its name alone.
pub proof fn law_names_are_set_alone(
    name: &str,
    card: ModelDeploymentCard,
    renamed: &mut ModelDeploymentCard,
    tokenized: bool,
)
    requires
        call_ensures(ModelDeploymentCard::with_name_only, (name,), card),
        call_ensures(ModelDeploymentCard::set_name, (renamed, name), ()),
        call_ensures(ModelDeploymentCard::has_tokenizer, (&card,), tokenized),
    ensures
        card.display_name@ == name@,
        !tokenized,
        card.model_info is None && card.gen_config is None && card.chat_template_file is None
            && card.prompt_formatter is None,
        card.context_length == 0 && card.kv_cache_block_size == 0,
        final(renamed).display_name@ == name@,
        final(renamed).checksum == old(renamed).checksum,
        final(renamed).tokenizer == old(renamed).tokenizer,
        final(renamed).context_length == old(renamed).context_length,
{
    let all = files(card);
    assert(all[0] is None);
    assert(all[1] is None);
    assert(all[2] is None);
    assert(all[3] is None);
    assert(all[4] is None);
}

/// What is known of a model is read from its configuration where that lies here; elsewhere it is
/// not, whatever the files say.
pub proof fn law_model_info_is_read_from_here(
    info: &ModelInfoType,
    files: ConfigFiles,
    read: Result<HFConfig, ConfigError>,
    config: Result<HFConfig, ConfigError>,
)
    requires
        call_ensures(ModelInfoType::get_model_info, (info, files), read),
        call_ensures(HFConfig::from_files, (files,), config),
    ensures
        ({
            let ModelInfoType::HfConfigJson(file) = *info;
            &&& file.location is Url ==> read is Err && read->Err_0 is NotLocal
            &&& file.location is Path ==> (read is Ok <==> config is Ok)
            &&& file.location is Path ==> (read matches Err(error) ==> !(error is NotLocal)
                && error == config->Err_0)
            &&& read matches Ok(found) ==> (config matches Ok(other)
                && found.final_bos_token_id == other.final_bos_token_id
                && found.final_eos_token_ids@ == other.final_eos_token_ids@
                && found.max_position_embeddings == other.max_position_embeddings
                && found.vocab_size == other.vocab_size)
        }),
{
}

/// A list of tokens is read in its order: each number adds its token, and anything else nothing.
pub proof fn law_lists_of_tokens_are_read_in_order(
    field: &Option<TokenField>,
    tokens: Option<Vec<TokenIdType>>,
    shorter: &Option<TokenField>,
    before: Option<Vec<TokenIdType>>,
)
    requires
        call_ensures(read_tokens, (field,), tokens),
        call_ensures(read_tokens, (shorter,), before),
        *field matches Some(TokenField::List(numbers)) && (*shorter matches Some(
            TokenField::List(fewer),
        ) && numbers@.len() > 0 && fewer@ == numbers@.drop_last()),
    ensures
        tokens is Some && before is Some,
        *field matches Some(TokenField::List(numbers)) ==> {
            &&& numbers@.last() matches Some(number) ==> tokens->Some_0@.len()
                == before->Some_0@.len() + 1 && tokens->Some_0@.drop_last() == before->Some_0@
                && tokens->Some_0@.last() == number % 0x1_0000_0000
            &&& numbers@.last() is None ==> tokens->Some_0@ == before->Some_0@
        },
{
    if let Some(TokenField::List(numbers)) = *field {
        if let Some(number) = numbers@.last() {
            assert(tokens->Some_0@.drop_last() =~= before->Some_0@);
        }
    }
}

/// What is wrong with a directory is told with the path, and with what went wrong.
pub proof fn law_refusals_tell_the_path(
    path: &str,
    found: RepoFiles,
    error: CardError,
)
    requires
        call_ensures(ModelDeploymentCard::from_repo_checkout, (path, found), Err(error)),
        found.custom_template is None,
    ensures
        error matches CardError::File(problem) && (match found.config {
            Err(cause) => problem.cause@ == cause@ && problem.context@
                == "unable to extract config.json from directory "@ + path@,
            Ok(_) => found.tokenizer matches Err(cause) && problem.cause@ == cause@
                && problem.context@ == "unable to extract tokenizer kind from directory "@ + path@,
        }),
{
}

/// What is wrong with a configuration is told by the token that is missing.
pub proof fn law_missing_tokens_are_told(error: &ConfigError, message: String)
    requires
        call_ensures(ConfigError::message, (error,), message),
    ensures
        *error is MissingBosToken ==> message@
            == "missing bos_token_id in generation_config.json and config.json, cannot load"@,
        *error is MissingEosToken ==> message@
            == "missing eos_token_id in config.json and generation_config.json, cannot load"@,
        *error matches ConfigError::NotLocal(file) ==> message@
            == "model info is not a local path: "@ + file@,
{
}

/// A file is shown with its name, where it lies and its checksum, in this order.
pub proof fn law_files_are_shown_with_their_parts(file: &CheckedFile, shown: String)
    requires
        call_ensures(CheckedFile::shown, (file,), shown),
    ensures
        shown@ == "CheckedFile { file_name: "@ + debug_text(file.file_name@) + ", location: "@ + (
        match file.location {
            FileLocation::Path(path) => "Path("@ + debug_text(path@) + ")"@,
            FileLocation::Url(url) => "Url("@ + debug_text(url@) + ")"@,
        }) + ", checksum: "@ + debug_text(file.checksum@) + " }"@,
{
}

/// The parts of a card have the checksum of their file, and are here where their file is.
pub proof fn law_parts_of_a_card_are_known_by_their_file(
    file: CheckedFile,
    here: bool,
    info: &ModelInfoType,
    info_sum: String,
    info_here: bool,
    tokenizer: &TokenizerKind,
    tokenizer_sum: String,
    tokenizer_here: bool,
    formatter: &PromptFormatterArtifact,
    formatter_sum: String,
    formatter_here: bool,
    generation: &GenerationConfig,
    generation_sum: String,
    generation_here: bool,
)
    requires
        here == (file.location is Path),
        *info == ModelInfoType::HfConfigJson(file),
        call_ensures(ModelInfoType::checksum, (info,), info_sum),
        call_ensures(ModelInfoType::is_local, (info,), info_here),
        *tokenizer == TokenizerKind::HfTokenizerJson(file),
        call_ensures(TokenizerKind::checksum, (tokenizer,), tokenizer_sum),
        call_ensures(TokenizerKind::is_local, (tokenizer,), tokenizer_here),
        *formatter == PromptFormatterArtifact::HfTokenizerConfigJson(file) || *formatter
            == PromptFormatterArtifact::HfChatTemplate(file),
        call_ensures(PromptFormatterArtifact::checksum, (formatter,), formatter_sum),
        call_ensures(PromptFormatterArtifact::is_local, (formatter,), formatter_here),
        *generation == GenerationConfig::HfGenerationConfigJson(file),
        call_ensures(GenerationConfig::checksum, (generation,), generation_sum),
        call_ensures(GenerationConfig::is_local, (generation,), generation_here),
    ensures
        info_sum@ == file.checksum@ && info_here == here,
        tokenizer_sum@ == file.checksum@ && tokenizer_here == here,
        formatter_sum@ == file.checksum@ && formatter_here == here,
        generation_sum@ == file.checksum@ && generation_here == here,
{
}

} // verus!
