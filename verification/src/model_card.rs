//! What is known about a model that is served.
use crate::kv_router::scheduler::ModelRuntimeConfig;
use crate::model_card::artifacts::{
    CheckedFile, FileError, FileLocation, GenerationConfig, ModelInfoType, PromptFormatterArtifact,
    TokenizerKind,
};
use crate::text::{join, join_all, joined, seen, views};
use vstd::prelude::*;
use vstd::utf8::encode_utf8;

pub mod artifacts;
pub mod card_laws;
pub mod hf_config;

verus! {

/// Where cards are kept in the key-value store.
pub const ROOT_PATH: &'static str = "v1/mdc";

/// What a template for prompts may ask for.
#[derive(Clone, Copy, Debug, PartialEq, Eq, Hash, Structural)]
pub enum PromptContextMixin {
    /// Chat messages and tools.
    OaiChat,
    /// The date and the time.
    Llama3DateTime,
}

impl PromptContextMixin {
    pub open spec fn name(self) -> Seq<char> {
        match self {
            PromptContextMixin::OaiChat => "OaiChat"@,
            PromptContextMixin::Llama3DateTime => "Llama3DateTime"@,
        }
    }

    fn name_text(self) -> (name: &'static str)
        ensures
            name@ == self.name(),
    {
        match self {
            PromptContextMixin::OaiChat => "OaiChat",
            PromptContextMixin::Llama3DateTime => "Llama3DateTime",
        }
    }
}

/// What the engine of a model is given.
#[derive(Clone, Copy, Debug, PartialEq, Eq, Structural)]
pub enum ModelInput {
    /// Text, which the engine processes itself.
    Text,
    /// Tokens.
    Tokens,
}

/// Everything that is known about a model that is served.
#[derive(Clone, Debug)]
pub struct ModelDeploymentCard {
    pub display_name: String,
    pub model_info: Option<ModelInfoType>,
    pub tokenizer: Option<TokenizerKind>,
    pub prompt_formatter: Option<PromptFormatterArtifact>,
    pub chat_template_file: Option<PromptFormatterArtifact>,
    pub gen_config: Option<GenerationConfig>,
    pub prompt_context: Option<Vec<PromptContextMixin>>,
    pub context_length: u32,
    pub kv_cache_block_size: u32,
    pub migration_limit: u32,
    pub model_input: ModelInput,
    pub runtime_config: ModelRuntimeConfig,
    /// What the user keeps with the model, as JSON.
    pub user_data: Option<String>,
    /// The checksum, once it was asked for.
    pub checksum: Option<String>,
}

/// What `blake3::hash` makes of some bytes, in hexadecimal.
pub uninterp spec fn blake3_hex(bytes: Seq<u8>) -> Seq<char>;

/// `blake3::hash` hashes some bytes; the hash is written in hexadecimal.
#[verifier::external_body]
fn hash_hex(bytes: &[u8]) -> (hash: String)
    ensures
        hash@ == blake3_hex(bytes@),
{
    blake3::hash(bytes).to_string()
}

/// A number as four bytes, the most significant one first.
pub open spec fn be_bytes(number: u32) -> Seq<u8> {
    seq![
        (number / 0x100_0000) as u8,
        (number / 0x1_0000 % 0x100) as u8,
        (number / 0x100 % 0x100) as u8,
        (number % 0x100) as u8,
    ]
}

/// The names of some mixins, as a list.
pub open spec fn context_text(context: Seq<PromptContextMixin>) -> Seq<char> {
    "["@ + joined(context.map_values(|mixin: PromptContextMixin| mixin.name()), ", "@) + "]"@
}

/// The checksum of a file, where there is a file.
pub open spec fn sum_bytes(file: Option<CheckedFile>) -> Seq<u8> {
    match file {
        Some(file) => encode_utf8(file.checksum@),
        None => Seq::empty(),
    }
}

/// The files of a card, where there are any: configuration, tokenizer, prompts, chat template and
/// sampling parameters.
pub open spec fn files(card: ModelDeploymentCard) -> Seq<Option<CheckedFile>> {
    seq![
        match card.model_info {
            Some(artifact) => Some(artifact.file()),
            None => None,
        },
        match card.tokenizer {
            Some(artifact) => Some(artifact.file()),
            None => None,
        },
        match card.prompt_formatter {
            Some(artifact) => Some(artifact.file()),
            None => None,
        },
        match card.chat_template_file {
            Some(artifact) => Some(artifact.file()),
            None => None,
        },
        match card.gen_config {
            Some(artifact) => Some(artifact.file()),
            None => None,
        },
    ]
}

/// The bytes whose hash stands for a card: its name, the checksums of its files wherever they
/// are, what its prompts need and its two sizes.
pub open spec fn card_bytes(card: ModelDeploymentCard) -> Seq<u8> {
    encode_utf8(card.display_name@) + sum_bytes(files(card)[0]) + sum_bytes(files(card)[1])
        + sum_bytes(files(card)[2]) + sum_bytes(files(card)[3]) + sum_bytes(files(card)[4]) + (
    match card.prompt_context {
        Some(context) => encode_utf8(context_text(context@)),
        None => Seq::empty(),
    }) + be_bytes(card.context_length) + be_bytes(card.kv_cache_block_size)
}

/// The checksum of a card.
pub open spec fn card_sum(card: ModelDeploymentCard) -> Seq<char> {
    match card.checksum {
        Some(sum) => sum@,
        None => blake3_hex(card_bytes(card)),
    }
}

/// Whether every file of a card is on this machine.
pub open spec fn all_local(card: ModelDeploymentCard) -> bool {
    forall|i: int|
        0 <= i < 5 ==> (#[trigger] files(card)[i] matches Some(file) ==> file.local())
}

/// Whether two templates, where there are any, are of the same kind.
pub open spec fn same_kind(
    first: Option<PromptFormatterArtifact>,
    second: Option<PromptFormatterArtifact>,
) -> bool {
    match (first, second) {
        (Some(first), Some(second)) => first is HfChatTemplate <==> second is HfChatTemplate,
        (None, None) => true,
        _ => false,
    }
}

/// Whether two cards are the same but for where their files are: those of the second are in a
/// directory.
pub open spec fn brought(
    before: ModelDeploymentCard,
    after: ModelDeploymentCard,
    dir: Seq<char>,
) -> bool {
    &&& after.display_name@ == before.display_name@
    &&& same_kind(before.prompt_formatter, after.prompt_formatter)
    &&& same_kind(before.chat_template_file, after.chat_template_file)
    &&& after.prompt_context == before.prompt_context
    &&& after.context_length == before.context_length
    &&& after.kv_cache_block_size == before.kv_cache_block_size
    &&& after.migration_limit == before.migration_limit
    &&& after.user_data == before.user_data
    &&& after.model_input == before.model_input
    &&& after.runtime_config == before.runtime_config
    &&& after.checksum == before.checksum
    &&& forall|i: int|
        0 <= i < 5 ==> match #[trigger] files(before)[i] {
            Some(file) => files(after)[i] matches Some(moved) && moved.brought_from(file, dir),
            None => files(after)[i] is None,
        }
}

fn push_text(bytes: &mut Vec<u8>, text: &str)
    ensures
        final(bytes)@ == old(bytes)@ + encode_utf8(text@),
{
    let ghost before = bytes@;
    let encoded = text.as_bytes();
    let mut index: usize = 0;
    while index < encoded.len()
        invariant
            index <= encoded@.len(),
            bytes@ =~= before + encoded@.take(index as int),
        decreases encoded@.len() - index,
    {
        bytes.push(encoded[index]);
        index += 1;
    }
    assert(encoded@.take(index as int) =~= encoded@);
}

fn push_number(bytes: &mut Vec<u8>, number: u32)
    ensures
        final(bytes)@ == old(bytes)@ + be_bytes(number),
{
    let ghost before = bytes@;
    bytes.push((number / 0x100_0000) as u8);
    bytes.push((number / 0x1_0000 % 0x100) as u8);
    bytes.push((number / 0x100 % 0x100) as u8);
    bytes.push((number % 0x100) as u8);
    assert(bytes@ =~= before + be_bytes(number));
}

fn write_context(context: &Vec<PromptContextMixin>) -> (text: String)
    ensures
        text@ == context_text(context@),
{
    let mut names: Vec<String> = Vec::new();
    let mut index: usize = 0;
    while index < context.len()
        invariant
            index <= context@.len(),
            names@.len() == index,
            forall|i: int| 0 <= i < index ==> (#[trigger] names@[i])@ == context@[i].name(),
        decreases context@.len() - index,
    {
        names.push(String::from_str(context[index].name_text()));
        index += 1;
    }
    assert(views(names@) =~= context@.map_values(|mixin: PromptContextMixin| mixin.name()));
    let list = join_all(names.as_slice(), ", ");
    let start = join("[", list.as_str());
    join(start.as_str(), "]")
}

/// Why there is no tokenizer to load.
#[derive(Clone, Debug)]
pub enum TokenizerError {
    /// Its file is elsewhere, at a URL.
    UrlBacked(String),
    /// The card has none.
    Blank,
}

/// What is said of a card without a tokenizer.
pub const BLANK_CARD: &'static str = "Blank ModelDeploymentCard does not have a tokenizer";

/// The name and checksum of a card for a file.
fn checksum_bytes(card: &ModelDeploymentCard) -> (bytes: Vec<u8>)
    ensures
        bytes@ == card_bytes(*card),
{
    let mut bytes: Vec<u8> = Vec::new();
    push_text(&mut bytes, card.display_name.as_str());
    assert(bytes@ =~= encode_utf8(card.display_name@));
    if let Some(artifact) = &card.model_info {
        push_text(&mut bytes, artifact.checksum().as_str());
    }
    if let Some(artifact) = &card.tokenizer {
        push_text(&mut bytes, artifact.checksum().as_str());
    }
    if let Some(artifact) = &card.prompt_formatter {
        push_text(&mut bytes, artifact.checksum().as_str());
    }
    if let Some(artifact) = &card.chat_template_file {
        push_text(&mut bytes, artifact.checksum().as_str());
    }
    if let Some(artifact) = &card.gen_config {
        push_text(&mut bytes, artifact.checksum().as_str());
    }
    assert(bytes@ =~= encode_utf8(card.display_name@) + sum_bytes(files(*card)[0]) + sum_bytes(
        files(*card)[1],
    ) + sum_bytes(files(*card)[2]) + sum_bytes(files(*card)[3]) + sum_bytes(files(*card)[4]));
    if let Some(context) = &card.prompt_context {
        push_text(&mut bytes, write_context(context).as_str());
    }
    push_number(&mut bytes, card.context_length);
    push_number(&mut bytes, card.kv_cache_block_size);
    assert(bytes@ =~= card_bytes(*card));
    bytes
}

/// What a worker is taken to have said of itself before it says anything.
pub open spec fn unreported() -> ModelRuntimeConfig {
    ModelRuntimeConfig {
        total_kv_blocks: None,
        max_num_seqs: None,
        max_num_batched_tokens: None,
        data_parallel_size: 1,
    }
}

/// Whether a card says no more of a model than its name.
pub open spec fn only_named(card: ModelDeploymentCard, name: Seq<char>) -> bool {
    &&& card.display_name@ == name
    &&& forall|i: int| 0 <= i < 5 ==> (#[trigger] files(card)[i]) is None
    &&& card.prompt_context is None
    &&& card.context_length == 0
    &&& card.kv_cache_block_size == 0
    &&& card.migration_limit == 0
    &&& card.user_data is None
    &&& card.model_input == ModelInput::Text
    &&& card.checksum is None
}

/// A template that was given in place of the model's own.
#[derive(Debug)]
pub struct CustomTemplate {
    pub path: String,
    pub exists: bool,
    /// Whether the file could be read as text, and if not, why.
    pub text: Result<(), String>,
    /// What came of taking the file.
    pub file: Result<CheckedFile, String>,
}

/// What was found of a model on this machine.
#[derive(Debug)]
pub struct RepoFiles {
    /// `max_position_embeddings` in `config.json`, if it is there.
    pub max_position_embeddings: Option<u32>,
    /// `model_max_length` in `tokenizer_config.json`, if it is there.
    pub model_max_length: Option<u32>,
    pub custom_template: Option<CustomTemplate>,
    /// What came of taking `config.json`, `tokenizer.json`, `generation_config.json`,
    /// `tokenizer_config.json` and `chat_template.jinja`.
    pub config: Result<CheckedFile, String>,
    pub tokenizer: Result<CheckedFile, String>,
    pub generation_config: Result<CheckedFile, String>,
    pub tokenizer_config: Result<CheckedFile, String>,
    pub chat_template: Result<CheckedFile, String>,
}

/// The number of tokens that a model can take, as its files give it, or zero.
pub open spec fn context_length_of(
    max_position_embeddings: Option<u32>,
    model_max_length: Option<u32>,
) -> u32 {
    match max_position_embeddings {
        Some(length) => length,
        None => match model_max_length {
            Some(length) => length,
            None => 0,
        },
    }
}

/// Why a model on this machine cannot be used: what is said first, and what was behind it.
#[derive(Clone, Debug)]
pub enum CardError {
    /// There is nothing at the path.
    NoPath(String),
    /// What is at the path is no directory.
    NotADirectory(String),
    /// The template is not there.
    NoTemplate(String),
    /// The template could not be read as text.
    UnreadableTemplate(FileError),
    /// The template could not be taken.
    Template(String),
    /// A file that the model needs could not be taken.
    File(FileError),
}

/// Looks at the path of a model on this machine.
pub fn check_valid_local_repo_path(path: &str, exists: bool, is_dir: bool) -> (checked: Result<
    (),
    CardError,
>)
    ensures
        match checked {
            Ok(()) => exists && is_dir,
            Err(CardError::NoPath(message)) => !exists && message@ == "Model path does not exist: "@
                + path@,
            Err(CardError::NotADirectory(message)) => exists && !is_dir && message@
                == "Model path is not a directory: "@ + path@,
            Err(_) => false,
        },
{
    if !exists {
        return Err(CardError::NoPath(join("Model path does not exist: ", path)));
    }
    if !is_dir {
        return Err(CardError::NotADirectory(join("Model path is not a directory: ", path)));
    }
    Ok(())
}

/// Whether the outcome of choosing a template is right: the one that was given, which has to be
/// there, or the model's own, which need not.
pub open spec fn chooses_template(
    custom: Option<CustomTemplate>,
    own: Result<CheckedFile, String>,
    chosen: Result<Option<PromptFormatterArtifact>, CardError>,
) -> bool {
    match custom {
        Some(template) => if !template.exists {
            chosen matches Err(CardError::NoTemplate(message)) && message@
                == "Custom template file does not exist: "@ + template.path@
        } else {
            match template.text {
                Err(cause) => chosen matches Err(CardError::UnreadableTemplate(error))
                    && error.context@ == "Failed to read custom template file: "@ + template.path@
                    && error.cause@ == cause@,
                Ok(()) => match template.file {
                    Ok(file) => chosen == Ok::<_, CardError>(
                        Some(PromptFormatterArtifact::HfChatTemplate(file)),
                    ),
                    Err(cause) => chosen matches Err(CardError::Template(message)) && message@
                        == cause@,
                },
            }
        },
        None => chosen == Ok::<_, CardError>(
            match own {
                Ok(file) => Some(PromptFormatterArtifact::HfChatTemplate(file)),
                Err(_) => None,
            },
        ),
    }
}

fn choose_template(
    custom: Option<CustomTemplate>,
    own: Result<CheckedFile, String>,
) -> (chosen: Result<Option<PromptFormatterArtifact>, CardError>)
    ensures
        chooses_template(custom, own, chosen),
{
    match custom {
        Some(template) => {
            if !template.exists {
                return Err(
                    CardError::NoTemplate(
                        join("Custom template file does not exist: ", template.path.as_str()),
                    ),
                );
            }
            if let Err(cause) = template.text {
                return Err(
                    CardError::UnreadableTemplate(
                        FileError {
                            context: join(
                                "Failed to read custom template file: ",
                                template.path.as_str(),
                            ),
                            cause,
                        },
                    ),
                );
            }
            match template.file {
                Ok(file) => Ok(Some(PromptFormatterArtifact::HfChatTemplate(file))),
                Err(cause) => Err(CardError::Template(cause)),
            }
        },
        None => Ok(PromptFormatterArtifact::chat_template_from_disk(own)),
    }
}

/// Whether an error is the one for which a model on this machine has no card: the template that
/// was given, or a file that the model needs.
pub open spec fn cannot_describe(path: Seq<char>, found: RepoFiles, error: CardError) -> bool {
    ||| chooses_template(found.custom_template, found.chat_template, Err(error))
    ||| exists|template: Option<PromptFormatterArtifact>|
        {
            &&& #[trigger] chooses_template(
                found.custom_template,
                found.chat_template,
                Ok(template),
            )
            &&& error matches CardError::File(problem) && (match found.config {
                Err(cause) => problem.cause@ == cause@ && problem.context@
                    == "unable to extract config.json from directory "@ + path,
                Ok(_) => found.tokenizer matches Err(cause) && problem.cause@ == cause@
                    && problem.context@ == "unable to extract tokenizer kind from directory "@
                    + path,
            })
        }
}

/// Whether a card is the one for a model on this machine.
pub open spec fn describes(card: ModelDeploymentCard, path: Seq<char>, found: RepoFiles) -> bool {
    &&& card.display_name@ == path
    &&& card.context_length == context_length_of(
        found.max_position_embeddings,
        found.model_max_length,
    )
    &&& found.config matches Ok(file) && card.model_info == Some(ModelInfoType::HfConfigJson(file))
    &&& found.tokenizer matches Ok(file) && card.tokenizer == Some(
        TokenizerKind::HfTokenizerJson(file),
    )
    &&& card.gen_config == (match found.generation_config {
        Ok(file) => Some(GenerationConfig::HfGenerationConfigJson(file)),
        Err(_) => None,
    })
    &&& card.prompt_formatter == (match found.tokenizer_config {
        Ok(file) => Some(PromptFormatterArtifact::HfTokenizerConfigJson(file)),
        Err(_) => None,
    })
    &&& chooses_template(
        found.custom_template,
        found.chat_template,
        Ok(card.chat_template_file),
    )
    &&& card.prompt_context is None
    &&& card.kv_cache_block_size == 0
    &&& card.migration_limit == 0
    &&& card.user_data is None
    &&& card.model_input == ModelInput::Text
    &&& card.runtime_config == unreported()
    &&& card.checksum is None
}

impl ModelDeploymentCard {
    /// A card that says no more of a model than its name.
    pub fn with_name_only(name: &str) -> (card: Self)
        ensures
            only_named(card, name@),
            card.runtime_config == unreported(),
    {
        ModelDeploymentCard {
            display_name: String::from_str(name),
            model_info: None,
            tokenizer: None,
            prompt_formatter: None,
            chat_template_file: None,
            gen_config: None,
            prompt_context: None,
            context_length: 0,
            kv_cache_block_size: 0,
            migration_limit: 0,
            user_data: None,
            model_input: ModelInput::Text,
            runtime_config: ModelRuntimeConfig::default(),
            checksum: None,
        }
    }

    pub fn name(&self) -> (name: &str)
        ensures
            name@ == self.display_name@,
    {
        self.display_name.as_str()
    }

    /// Gives the model another name. A checksum that was already asked for stays.
    pub fn set_name(&mut self, name: &str)
        ensures
            final(self).display_name@ == name@,
            *final(self) == (ModelDeploymentCard {
                display_name: final(self).display_name,
                ..*old(self)
            }),
    {
        self.display_name = String::from_str(name);
    }

    /// The checksum of the card. It is worked out when it is first asked for, and kept.
    pub fn mdcsum(&mut self) -> (sum: String)
        ensures
            sum@ == card_sum(*old(self)),
            seen(final(self).checksum) == Some(sum@),
            *final(self) == (ModelDeploymentCard { checksum: final(self).checksum, ..*old(self) }),
    {
        if self.checksum.is_none() {
            let bytes = checksum_bytes(self);
            self.checksum = Some(hash_hex(bytes.as_slice()));
        }
        match &self.checksum {
            Some(sum) => String::from_str(sum.as_str()),
            None => String::new(),
        }
    }

    /// Whether two cards have the same checksum. Both take note of theirs.
    pub fn same_as(&mut self, other: &mut ModelDeploymentCard) -> (same: bool)
        ensures
            same == (card_sum(*old(self)) == card_sum(*old(other))),
            seen(final(self).checksum) == Some(card_sum(*old(self))),
            seen(final(other).checksum) == Some(card_sum(*old(other))),
            *final(self) == (ModelDeploymentCard { checksum: final(self).checksum, ..*old(self) }),
            *final(other) == (ModelDeploymentCard {
                checksum: final(other).checksum,
                ..*old(other)
            }),
    {
        let first = self.mdcsum();
        let second = other.mdcsum();
        first == second
    }

    pub fn has_tokenizer(&self) -> (has: bool)
        ensures
            has == (self.tokenizer is Some),
    {
        self.tokenizer.is_some()
    }

    /// The path of the file that the tokenizer is loaded from.
    pub fn tokenizer_path(&self) -> (path: Result<String, TokenizerError>)
        ensures
            match (self.tokenizer, path) {
                (Some(tokenizer), Ok(path)) => tokenizer.file().location matches FileLocation::Path(
                    text,
                ) && text@ == path@,
                (Some(tokenizer), Err(TokenizerError::UrlBacked(url))) =>
                    tokenizer.file().location matches FileLocation::Url(text) && text@ == url@,
                (None, Err(TokenizerError::Blank)) => true,
                _ => false,
            },
    {
        match &self.tokenizer {
            Some(TokenizerKind::HfTokenizerJson(file)) => match &file.location {
                FileLocation::Path(path) => Ok(String::from_str(path.as_str())),
                FileLocation::Url(url) => Err(
                    TokenizerError::UrlBacked(String::from_str(url.as_str())),
                ),
            },
            None => Err(TokenizerError::Blank),
        }
    }

    /// Whether requests are turned into tokens before they reach the engine.
    pub fn requires_preprocessing(&self) -> (requires: bool)
        ensures
            requires == (self.model_input == ModelInput::Tokens),
    {
        match self.model_input {
            ModelInput::Tokens => true,
            ModelInput::Text => false,
        }
    }

    /// Whether every file that the card names is on this machine, so that nothing is downloaded.
    pub fn has_local_files(&self) -> (local: bool)
        ensures
            local == all_local(*self),
    {
        let has_model_info = match &self.model_info {
            Some(artifact) => artifact.is_local(),
            None => true,
        };
        let has_tokenizer = match &self.tokenizer {
            Some(artifact) => artifact.is_local(),
            None => true,
        };
        let has_prompt_formatter = match &self.prompt_formatter {
            Some(artifact) => artifact.is_local(),
            None => true,
        };
        let has_chat_template_file = match &self.chat_template_file {
            Some(artifact) => artifact.is_local(),
            None => true,
        };
        let has_gen_config = match &self.gen_config {
            Some(artifact) => artifact.is_local(),
            None => true,
        };
        proof {
            let found = files(*self);
            assert(found[0] matches Some(file) ==> has_model_info == file.local());
            assert(found[1] matches Some(file) ==> has_tokenizer == file.local());
            assert(found[2] matches Some(file) ==> has_prompt_formatter == file.local());
            assert(found[3] matches Some(file) ==> has_chat_template_file == file.local());
            assert(found[4] matches Some(file) ==> has_gen_config == file.local());
        }
        has_model_info && has_tokenizer && has_prompt_formatter && has_chat_template_file
            && has_gen_config
    }

    /// Takes note that the files are now in a directory on this machine.
    pub fn update_dir(&mut self, dir: &str)
        ensures
            brought(*old(self), *final(self), dir@),
    {
        if let Some(artifact) = &mut self.model_info {
            artifact.update_dir(dir);
        }
        if let Some(artifact) = &mut self.tokenizer {
            artifact.update_dir(dir);
        }
        if let Some(artifact) = &mut self.prompt_formatter {
            artifact.update_dir(dir);
        }
        if let Some(artifact) = &mut self.chat_template_file {
            artifact.update_dir(dir);
        }
        if let Some(artifact) = &mut self.gen_config {
            artifact.update_dir(dir);
        }
    }

    /// The card of a model on this machine, given what was found there. A template that was given
    /// is looked at first, then the files that the model needs.
    pub fn from_repo_checkout(path: &str, found: RepoFiles) -> (card: Result<Self, CardError>)
        ensures
            match card {
                Ok(card) => describes(card, path@, found),
                Err(error) => cannot_describe(path@, found, error),
            },
    {
        let context_length: u32 = match found.max_position_embeddings {
            Some(length) => length,
            None => match found.model_max_length {
                Some(length) => length,
                None => 0,
            },
        };
        let chat_template_file = match choose_template(
            found.custom_template,
            found.chat_template,
        ) {
            Ok(template) => template,
            Err(error) => {
                return Err(error);
            },
        };
        let model_info = match ModelInfoType::from_disk(path, found.config) {
            Ok(artifact) => artifact,
            Err(error) => {
                return Err(CardError::File(error));
            },
        };
        let tokenizer = match TokenizerKind::from_disk(path, found.tokenizer) {
            Ok(artifact) => artifact,
            Err(error) => {
                return Err(CardError::File(error));
            },
        };
        let gen_config = match GenerationConfig::from_disk(path, found.generation_config) {
            Ok(artifact) => Some(artifact),
            Err(_) => None,
        };
        Ok(
            ModelDeploymentCard {
                display_name: String::from_str(path),
                model_info: Some(model_info),
                tokenizer: Some(tokenizer),
                prompt_formatter: PromptFormatterArtifact::from_disk(found.tokenizer_config),
                chat_template_file,
                gen_config,
                prompt_context: None,
                context_length,
                kv_cache_block_size: 0,
                migration_limit: 0,
                user_data: None,
                model_input: ModelInput::Text,
                runtime_config: ModelRuntimeConfig::default(),
                checksum: None,
            },
        )
    }

    /// A card is published once and never changed.
    pub fn revision(&self) -> (revision: u64)
        ensures
            revision == 0,
    {
        0
    }
}

/// The checksum of a card does not depend on where its files are, and once they were brought to
/// this machine nothing is left to download.
pub proof fn law_checksum_ignores_locations(
    before: ModelDeploymentCard,
    after: ModelDeploymentCard,
    dir: Seq<char>,
)
    requires
        brought(before, after, dir),
    ensures
        card_sum(after) == card_sum(before),
        all_local(after),
{
    assert forall|i: int| 0 <= i < 5 implies (#[trigger] files(after)[i] matches Some(file)
        ==> file.local()) by {
        assert(files(before)[i] is Some || files(before)[i] is None);
    }
    assert(sum_bytes(files(after)[0]) == sum_bytes(files(before)[0]));
    assert(sum_bytes(files(after)[1]) == sum_bytes(files(before)[1]));
    assert(sum_bytes(files(after)[2]) == sum_bytes(files(before)[2]));
    assert(sum_bytes(files(after)[3]) == sum_bytes(files(before)[3]));
    assert(sum_bytes(files(after)[4]) == sum_bytes(files(before)[4]));
}

} // verus!
