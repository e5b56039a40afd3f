//! The files that describe a model.
use crate::paths::{in_dir, path_in};
use crate::text::{join, surround};
use vstd::prelude::*;

verus! {

/// Where a file is.
#[derive(Clone, Debug)]
pub enum FileLocation {
    /// On this machine, at a path.
    Path(String),
    /// Elsewhere, at a URL.
    Url(String),
}

/// What the standard library's `Debug` shows of a text: the text in quotes, with what cannot be
/// shown escaped.
pub uninterp spec fn debug_text(text: Seq<char>) -> Seq<char>;

/// Writes a text as `<str as std::fmt::Debug>::fmt` does. What it writes is determined by the text.
#[verifier::external_body]
fn quoted(text: &str) -> (shown: String)
    ensures
        shown@ == debug_text(text@),
{
    format!("{text:?}")
}

/// A file together with the checksum of what it holds.
#[derive(Clone, Debug)]
pub struct CheckedFile {
    /// The last part of the file's path.
    pub file_name: String,
    pub location: FileLocation,
    pub checksum: String,
}

impl CheckedFile {
    /// Whether the file is on this machine.
    pub open spec fn local(self) -> bool {
        self.location is Path
    }

    /// The whole file as a programmer is shown it.
    pub open spec fn shown_text(self) -> Seq<char> {
        let location = match self.location {
            FileLocation::Path(path) => "Path("@ + debug_text(path@) + ")"@,
            FileLocation::Url(url) => "Url("@ + debug_text(url@) + ")"@,
        };
        "CheckedFile { file_name: "@ + debug_text(self.file_name@) + ", location: "@ + location
            + ", checksum: "@ + debug_text(self.checksum@) + " }"@
    }

    /// Shows the whole file to a programmer.
    pub fn shown(&self) -> (shown: String)
        ensures
            shown@ == self.shown_text(),
    {
        let location = match &self.location {
            FileLocation::Path(path) => surround("Path(", quoted(path.as_str()).as_str(), ")"),
            FileLocation::Url(url) => surround("Url(", quoted(url.as_str()).as_str(), ")"),
        };
        let mut shown = join("CheckedFile { file_name: ", quoted(self.file_name.as_str()).as_str());
        shown.append(", location: ");
        shown.append(location.as_str());
        shown.append(", checksum: ");
        shown.append(quoted(self.checksum.as_str()).as_str());
        shown.append(" }");
        shown
    }

    /// Whether this is another file, brought into a directory.
    pub open spec fn brought_from(self, before: CheckedFile, dir: Seq<char>) -> bool {
        &&& self.file_name@ == before.file_name@
        &&& self.checksum@ == before.checksum@
        &&& self.location matches FileLocation::Path(path) && path@ == in_dir(
            dir,
            before.file_name@,
        )
    }

    pub fn checksum(&self) -> (sum: &str)
        ensures
            sum@ == self.checksum@,
    {
        self.checksum.as_str()
    }

    pub fn is_local(&self) -> (local: bool)
        ensures
            local == self.local(),
    {
        match self.location {
            FileLocation::Path(_) => true,
            FileLocation::Url(_) => false,
        }
    }

    /// Where the file is on this machine, if it is.
    pub fn path(&self) -> (path: Option<&str>)
        ensures
            match path {
                Some(path) => self.location matches FileLocation::Path(text) && text@ == path@,
                None => !self.local(),
            },
    {
        match &self.location {
            FileLocation::Path(path) => Some(path.as_str()),
            FileLocation::Url(_) => None,
        }
    }

    /// Takes note that the file is now in a directory on this machine.
    pub fn update_dir(&mut self, dir: &str)
        ensures
            final(self).brought_from(*old(self), dir@),
    {
        let path = path_in(dir, self.file_name.as_str());
        self.location = FileLocation::Path(path);
    }
}

/// Why a file of a model could not be used: what was tried, and what went wrong.
#[derive(Clone, Debug)]
pub struct FileError {
    pub context: String,
    pub cause: String,
}

/// The file with the model's configuration.
#[derive(Clone, Debug)]
pub enum ModelInfoType {
    HfConfigJson(CheckedFile),
}

impl ModelInfoType {
    pub open spec fn file(self) -> CheckedFile {
        match self {
            ModelInfoType::HfConfigJson(file) => file,
        }
    }

    pub fn checksum(&self) -> (sum: String)
        ensures
            sum@ == self.file().checksum@,
    {
        match self {
            ModelInfoType::HfConfigJson(file) => String::from_str(file.checksum()),
        }
    }

    pub fn is_local(&self) -> (local: bool)
        ensures
            local == self.file().local(),
    {
        match self {
            ModelInfoType::HfConfigJson(file) => file.is_local(),
        }
    }

    pub fn update_dir(&mut self, dir: &str)
        ensures
            final(self).file().brought_from(old(self).file(), dir@),
    {
        match self {
            ModelInfoType::HfConfigJson(file) => file.update_dir(dir),
        }
    }

    /// The configuration in a directory, given what came of reading `config.json` there.
    pub fn from_disk(directory: &str, read: Result<CheckedFile, String>) -> (found: Result<
        Self,
        FileError,
    >)
        ensures
            match read {
                Ok(file) => found == Ok::<Self, FileError>(ModelInfoType::HfConfigJson(file)),
                Err(cause) => {
                    &&& found matches Err(error)
                    &&& found->Err_0.context@ == "unable to extract config.json from directory "@
                        + directory@
                    &&& found->Err_0.cause@ == cause@
                },
            },
    {
        match read {
            Ok(file) => Ok(ModelInfoType::HfConfigJson(file)),
            Err(cause) => Err(
                FileError {
                    context: join("unable to extract config.json from directory ", directory),
                    cause,
                },
            ),
        }
    }
}

/// The file with the model's tokenizer.
#[derive(Clone, Debug)]
pub enum TokenizerKind {
    HfTokenizerJson(CheckedFile),
}

impl TokenizerKind {
    pub open spec fn file(self) -> CheckedFile {
        match self {
            TokenizerKind::HfTokenizerJson(file) => file,
        }
    }

    pub fn checksum(&self) -> (sum: String)
        ensures
            sum@ == self.file().checksum@,
    {
        match self {
            TokenizerKind::HfTokenizerJson(file) => String::from_str(file.checksum()),
        }
    }

    pub fn is_local(&self) -> (local: bool)
        ensures
            local == self.file().local(),
    {
        match self {
            TokenizerKind::HfTokenizerJson(file) => file.is_local(),
        }
    }

    pub fn update_dir(&mut self, dir: &str)
        ensures
            final(self).file().brought_from(old(self).file(), dir@),
    {
        match self {
            TokenizerKind::HfTokenizerJson(file) => file.update_dir(dir),
        }
    }

    /// The tokenizer in a directory, given what came of reading `tokenizer.json` there.
    pub fn from_disk(directory: &str, read: Result<CheckedFile, String>) -> (found: Result<
        Self,
        FileError,
    >)
        ensures
            match read {
                Ok(file) => found == Ok::<Self, FileError>(TokenizerKind::HfTokenizerJson(file)),
                Err(cause) => {
                    &&& found matches Err(error)
                    &&& found->Err_0.context@ == "unable to extract tokenizer kind from directory "@
                        + directory@
                    &&& found->Err_0.cause@ == cause@
                },
            },
    {
        match read {
            Ok(file) => Ok(TokenizerKind::HfTokenizerJson(file)),
            Err(cause) => Err(
                FileError {
                    context: join("unable to extract tokenizer kind from directory ", directory),
                    cause,
                },
            ),
        }
    }
}

/// The file with the template for prompts.
#[derive(Clone, Debug)]
pub enum PromptFormatterArtifact {
    HfTokenizerConfigJson(CheckedFile),
    HfChatTemplate(CheckedFile),
}

impl PromptFormatterArtifact {
    pub open spec fn file(self) -> CheckedFile {
        match self {
            PromptFormatterArtifact::HfTokenizerConfigJson(file) => file,
            PromptFormatterArtifact::HfChatTemplate(file) => file,
        }
    }

    pub fn checksum(&self) -> (sum: String)
        ensures
            sum@ == self.file().checksum@,
    {
        match self {
            PromptFormatterArtifact::HfTokenizerConfigJson(file) => String::from_str(
                file.checksum(),
            ),
            PromptFormatterArtifact::HfChatTemplate(file) => String::from_str(file.checksum()),
        }
    }

    pub fn is_local(&self) -> (local: bool)
        ensures
            local == self.file().local(),
    {
        match self {
            PromptFormatterArtifact::HfTokenizerConfigJson(file) => file.is_local(),
            PromptFormatterArtifact::HfChatTemplate(file) => file.is_local(),
        }
    }

    pub fn update_dir(&mut self, dir: &str)
        ensures
            final(self).file().brought_from(old(self).file(), dir@),
            *final(self) is HfChatTemplate <==> *old(self) is HfChatTemplate,
    {
        match self {
            PromptFormatterArtifact::HfTokenizerConfigJson(file) => file.update_dir(dir),
            PromptFormatterArtifact::HfChatTemplate(file) => file.update_dir(dir),
        }
    }

    /// The template in a directory, given what came of reading `tokenizer_config.json` there. A
    /// model may do without.
    pub fn from_disk(read: Result<CheckedFile, String>) -> (found: Option<Self>)
        ensures
            found == (match read {
                Ok(file) => Some(PromptFormatterArtifact::HfTokenizerConfigJson(file)),
                Err(_) => None,
            }),
    {
        match read {
            Ok(file) => Some(PromptFormatterArtifact::HfTokenizerConfigJson(file)),
            Err(_) => None,
        }
    }

    /// The template in a directory, given what came of reading `chat_template.jinja` there. A
    /// model may do without.
    pub fn chat_template_from_disk(read: Result<CheckedFile, String>) -> (found: Option<Self>)
        ensures
            found == (match read {
                Ok(file) => Some(PromptFormatterArtifact::HfChatTemplate(file)),
                Err(_) => None,
            }),
    {
        match read {
            Ok(file) => Some(PromptFormatterArtifact::HfChatTemplate(file)),
            Err(_) => None,
        }
    }
}

/// The file with the model's usual sampling parameters.
#[derive(Clone, Debug)]
pub enum GenerationConfig {
    HfGenerationConfigJson(CheckedFile),
}

impl GenerationConfig {
    pub open spec fn file(self) -> CheckedFile {
        match self {
            GenerationConfig::HfGenerationConfigJson(file) => file,
        }
    }

    pub fn checksum(&self) -> (sum: String)
        ensures
            sum@ == self.file().checksum@,
    {
        match self {
            GenerationConfig::HfGenerationConfigJson(file) => String::from_str(file.checksum()),
        }
    }

    pub fn is_local(&self) -> (local: bool)
        ensures
            local == self.file().local(),
    {
        match self {
            GenerationConfig::HfGenerationConfigJson(file) => file.is_local(),
        }
    }

    pub fn update_dir(&mut self, dir: &str)
        ensures
            final(self).file().brought_from(old(self).file(), dir@),
    {
        match self {
            GenerationConfig::HfGenerationConfigJson(file) => file.update_dir(dir),
        }
    }

    /// The parameters in a directory, given what came of reading `generation_config.json` there.
    pub fn from_disk(directory: &str, read: Result<CheckedFile, String>) -> (found: Result<
        Self,
        FileError,
    >)
        ensures
            match read {
                Ok(file) => found == Ok::<Self, FileError>(
                    GenerationConfig::HfGenerationConfigJson(file),
                ),
                Err(cause) => {
                    &&& found matches Err(error)
                    &&& found->Err_0.context@
                        == "unable to extract generation_config from directory "@ + directory@
                    &&& found->Err_0.cause@ == cause@
                },
            },
    {
        match read {
            Ok(file) => Ok(GenerationConfig::HfGenerationConfigJson(file)),
            Err(cause) => Err(
                FileError {
                    context: join("unable to extract generation_config from directory ", directory),
                    cause,
                },
            ),
        }
    }
}

} // verus!
