//! What a model's configuration files say about its tokens.
use crate::model_card::artifacts::{CheckedFile, FileLocation, ModelInfoType};
use crate::seqs::lemma_take_next;
use crate::text::join;
use vstd::prelude::*;

verus! {

/// A token.
pub type TokenIdType = u32;

/// Tokens as a configuration file gives them.
#[derive(Clone, Debug)]
pub enum TokenField {
    /// A number, if it is one without sign or fraction.
    Number(Option<u64>),
    /// A list, in which only such numbers count.
    List(Vec<Option<u64>>),
    /// Something else.
    Other,
}

/// A number taken for a token: as much of it as a token can hold.
pub open spec fn as_token(number: u64) -> TokenIdType {
    (number % 0x1_0000_0000) as TokenIdType
}

/// The tokens among some numbers, in order.
pub open spec fn listed_tokens(numbers: Seq<Option<u64>>) -> Seq<TokenIdType>
    decreases numbers.len(),
{
    if numbers.len() == 0 {
        Seq::empty()
    } else {
        match numbers.last() {
            Some(number) => listed_tokens(numbers.drop_last()).push(as_token(number)),
            None => listed_tokens(numbers.drop_last()),
        }
    }
}

/// The tokens that a field gives, if it gives any.
pub open spec fn tokens_in(field: TokenField) -> Option<Seq<TokenIdType>> {
    match field {
        TokenField::Number(Some(number)) => Some(seq![as_token(number)]),
        TokenField::Number(None) => None,
        TokenField::List(numbers) => Some(listed_tokens(numbers@)),
        TokenField::Other => None,
    }
}

/// The tokens that a field gives, if it is there and gives any.
pub open spec fn tokens_of(field: Option<TokenField>) -> Option<Seq<TokenIdType>> {
    match field {
        Some(field) => tokens_in(field),
        None => None,
    }
}

fn to_token(number: u64) -> (token: TokenIdType)
    ensures
        token == as_token(number),
{
    (number % 0x1_0000_0000) as TokenIdType
}

fn list_tokens(numbers: &Vec<Option<u64>>) -> (tokens: Vec<TokenIdType>)
    ensures
        tokens@ == listed_tokens(numbers@),
{
    let mut tokens: Vec<TokenIdType> = Vec::new();
    let mut index: usize = 0;
    while index < numbers.len()
        invariant
            index <= numbers@.len(),
            tokens@ == listed_tokens(numbers@.take(index as int)),
        decreases numbers@.len() - index,
    {
        proof {
            lemma_take_next(numbers@, index as int);
            assert(numbers@.take(index + 1).drop_last() =~= numbers@.take(index as int));
        }
        if let Some(number) = numbers[index] {
            tokens.push(to_token(number));
        }
        index += 1;
    }
    assert(numbers@.take(index as int) =~= numbers@);
    tokens
}

/// Reads the tokens in a field.
pub fn read_tokens(field: &Option<TokenField>) -> (tokens: Option<Vec<TokenIdType>>)
    ensures
        match tokens {
            Some(tokens) => tokens_of(*field) == Some(tokens@),
            None => tokens_of(*field) is None,
        },
{
    match field {
        Some(TokenField::Number(number)) => match number {
            Some(number) => {
                let tokens = vec![to_token(*number)];
                assert(tokens@ =~= seq![as_token(*number)]);
                Some(tokens)
            },
            None => None,
        },
        Some(TokenField::List(numbers)) => Some(list_tokens(numbers)),
        Some(TokenField::Other) => None,
        None => None,
    }
}

/// The part of a configuration that is about text.
#[derive(Clone, Debug)]
pub struct HFTextConfig {
    pub bos_token_id: Option<TokenIdType>,
    pub eos_token_id: Option<TokenField>,
    pub max_position_embeddings: Option<usize>,
    pub vocab_size: Option<usize>,
}

/// What the configuration files of a model hold.
#[derive(Clone, Debug)]
pub struct ConfigFiles {
    pub model_type: String,
    /// The part about text, where it stands by itself.
    pub text_config: Option<HFTextConfig>,
    /// The part about text, read off the top of the file, which is looked at where there is none
    /// by itself.
    pub top_level: HFTextConfig,
    pub eos_token_id: Option<TokenField>,
    /// The tokens in `generation_config.json`.
    pub generation_bos_token_id: Option<TokenIdType>,
    pub generation_eos_token_id: Option<TokenField>,
}

impl ConfigFiles {
    /// The part about text that counts.
    pub open spec fn text(self) -> HFTextConfig {
        match self.text_config {
            Some(text) => text,
            None => self.top_level,
        }
    }

    /// The token that begins a sequence.
    pub open spec fn bos(self) -> Option<TokenIdType> {
        match self.text().bos_token_id {
            Some(token) => Some(token),
            None => self.generation_bos_token_id,
        }
    }

    /// The field of the configuration in which the tokens that end a sequence are looked for: at
    /// the top, or where there is none, in the part about text.
    pub open spec fn eos_field(self) -> Option<TokenField> {
        match self.eos_token_id {
            Some(field) => Some(field),
            None => self.text().eos_token_id,
        }
    }

    /// The tokens that end a sequence.
    pub open spec fn eos(self) -> Option<Seq<TokenIdType>> {
        match tokens_of(self.eos_field()) {
            Some(tokens) => Some(tokens),
            None => tokens_of(self.generation_eos_token_id),
        }
    }
}

/// Why a model's configuration cannot be used.
#[derive(Clone, Debug, PartialEq, Eq)]
pub enum ConfigError {
    MissingBosToken,
    MissingEosToken,
    /// The configuration is elsewhere; its file is shown.
    NotLocal(String),
}

impl ConfigError {
    pub open spec fn text(self) -> Seq<char> {
        match self {
            ConfigError::MissingBosToken =>
                "missing bos_token_id in generation_config.json and config.json, cannot load"@,
            ConfigError::MissingEosToken =>
                "missing eos_token_id in config.json and generation_config.json, cannot load"@,
            ConfigError::NotLocal(file) => "model info is not a local path: "@ + file@,
        }
    }

    pub fn message(&self) -> (message: String)
        ensures
            message@ == self.text(),
    {
        match self {
            ConfigError::MissingBosToken => String::from_str(
                "missing bos_token_id in generation_config.json and config.json, cannot load",
            ),
            ConfigError::MissingEosToken => String::from_str(
                "missing eos_token_id in config.json and generation_config.json, cannot load",
            ),
            ConfigError::NotLocal(file) => join("model info is not a local path: ", file.as_str()),
        }
    }
}

/// What is known of a model.
pub trait ModelInfo {
    spec fn type_text(&self) -> Seq<char>;

    spec fn bos(&self) -> TokenIdType;

    spec fn eos(&self) -> Seq<TokenIdType>;

    spec fn positions(&self) -> Option<usize>;

    spec fn vocabulary(&self) -> Option<usize>;

    /// The general type of the model.
    fn model_type(&self) -> (text: String)
        ensures
            text@ == self.type_text(),
    ;

    /// The token that begins a sequence.
    fn bos_token_id(&self) -> (token: TokenIdType)
        ensures
            token == self.bos(),
    ;

    /// The tokens that end a sequence.
    fn eos_token_ids(&self) -> (tokens: Vec<TokenIdType>)
        ensures
            tokens@ == self.eos(),
    ;

    /// How long a sequence can be.
    fn max_position_embeddings(&self) -> (number: Option<usize>)
        ensures
            number == self.positions(),
    ;

    /// How many tokens there are.
    fn vocab_size(&self) -> (number: Option<usize>)
        ensures
            number == self.vocabulary(),
    ;
}

/// What a model's configuration comes to.
#[derive(Clone, Debug)]
pub struct HFConfig {
    pub model_type: String,
    pub final_bos_token_id: TokenIdType,
    pub final_eos_token_ids: Vec<TokenIdType>,
    pub max_position_embeddings: Option<usize>,
    pub vocab_size: Option<usize>,
}

fn copy_tokens(tokens: &Vec<TokenIdType>) -> (copy: Vec<TokenIdType>)
    ensures
        copy@ == tokens@,
{
    let mut copy: Vec<TokenIdType> = Vec::new();
    let mut index: usize = 0;
    while index < tokens.len()
        invariant
            index <= tokens@.len(),
            copy@ =~= tokens@.take(index as int),
        decreases tokens@.len() - index,
    {
        copy.push(tokens[index]);
        index += 1;
    }
    copy
}

impl ModelInfo for HFConfig {
    open spec fn type_text(&self) -> Seq<char> {
        self.model_type@
    }

    open spec fn bos(&self) -> TokenIdType {
        self.final_bos_token_id
    }

    open spec fn eos(&self) -> Seq<TokenIdType> {
        self.final_eos_token_ids@
    }

    open spec fn positions(&self) -> Option<usize> {
        self.max_position_embeddings
    }

    open spec fn vocabulary(&self) -> Option<usize> {
        self.vocab_size
    }

    fn model_type(&self) -> (text: String) {
        String::from_str(self.model_type.as_str())
    }

    fn bos_token_id(&self) -> (token: TokenIdType) {
        self.final_bos_token_id
    }

    fn eos_token_ids(&self) -> (tokens: Vec<TokenIdType>) {
        copy_tokens(&self.final_eos_token_ids)
    }

    fn max_position_embeddings(&self) -> (number: Option<usize>) {
        self.max_position_embeddings
    }

    fn vocab_size(&self) -> (number: Option<usize>) {
        self.vocab_size
    }
}

impl HFConfig {
    /// Whether this is what some files come to.
    pub open spec fn comes_from(self, files: ConfigFiles) -> bool {
        &&& self.type_text() == files.model_type@
        &&& Some(self.bos()) == files.bos()
        &&& Some(self.eos()) == files.eos()
        &&& self.positions() == files.text().max_position_embeddings
        &&& self.vocabulary() == files.text().vocab_size
    }

    /// Works out what the files of a model say. The token that begins a sequence is looked for
    /// first, then those that end one.
    pub fn from_files(files: ConfigFiles) -> (config: Result<Self, ConfigError>)
        ensures
            match config {
                Ok(config) => config.comes_from(files),
                Err(error) => if files.bos() is None {
                    error == ConfigError::MissingBosToken
                } else {
                    files.eos() is None && error == ConfigError::MissingEosToken
                },
            },
    {
        let text = match files.text_config {
            Some(text) => text,
            None => files.top_level,
        };
        let bos = match text.bos_token_id {
            Some(token) => Some(token),
            None => files.generation_bos_token_id,
        };
        let bos: TokenIdType = match bos {
            Some(token) => token,
            None => {
                return Err(ConfigError::MissingBosToken);
            },
        };
        let field = match files.eos_token_id {
            Some(field) => Some(field),
            None => text.eos_token_id,
        };
        let eos = match read_tokens(&field) {
            Some(tokens) => Some(tokens),
            None => read_tokens(&files.generation_eos_token_id),
        };
        match eos {
            Some(tokens) => Ok(
                HFConfig {
                    model_type: files.model_type,
                    final_bos_token_id: bos,
                    final_eos_token_ids: tokens,
                    max_position_embeddings: text.max_position_embeddings,
                    vocab_size: text.vocab_size,
                },
            ),
            None => Err(ConfigError::MissingEosToken),
        }
    }
}

/// Whether the error shows a file that is not on this machine.
pub open spec fn not_local(file: CheckedFile, error: ConfigError) -> bool {
    !file.local() && (error matches ConfigError::NotLocal(told) && told@ == file.shown_text())
}

impl ModelInfoType {
    /// The path of the file that the model's configuration is read from.
    pub fn config_path(&self) -> (path: Result<&str, ConfigError>)
        ensures
            match path {
                Ok(path) => self.file().location matches FileLocation::Path(text) && text@ == path@,
                Err(error) => not_local(self.file(), error),
            },
    {
        match self {
            ModelInfoType::HfConfigJson(file) => match file.path() {
                Some(path) => Ok(path),
                None => Err(ConfigError::NotLocal(file.shown())),
            },
        }
    }

    /// What is known of the model, given what its configuration files hold. Files that are
    /// elsewhere are not read.
    pub fn get_model_info(&self, files: ConfigFiles) -> (info: Result<HFConfig, ConfigError>)
        ensures
            match info {
                Ok(config) => self.file().local() && config.comes_from(files),
                Err(error) => if !self.file().local() {
                    not_local(self.file(), error)
                } else if files.bos() is None {
                    error == ConfigError::MissingBosToken
                } else {
                    files.eos() is None && error == ConfigError::MissingEosToken
                },
            },
    {
        match self.config_path() {
            Ok(_) => HFConfig::from_files(files),
            Err(error) => Err(error),
        }
    }
}

} // verus!
