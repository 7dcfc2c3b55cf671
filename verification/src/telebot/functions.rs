//! Values that go into requests to the messaging service.

use vstd::prelude::*;

verus! {

/// The target of a request: a chat by its name or by its number.
#[derive(Debug, Clone, PartialEq, Eq)]
pub enum ChatID {
    String(String),
    Integer(i64),
}

impl ChatID {
    /// The chat with the given name.
    pub fn from_name(id: String) -> (r: ChatID)
        ensures
            r == ChatID::String(id),
    {
        ChatID::String(id)
    }

    /// The chat with the given number.
    pub fn from_number(id: i64) -> (r: ChatID)
        ensures
            r == ChatID::Integer(id),
    {
        ChatID::Integer(id)
    }
}

/// A file in a request: one that the service knows by its id, or one that
/// is sent along with its name and content.
#[derive(Debug, Clone, PartialEq, Eq)]
pub enum File {
    String(String),
    InputFile(String, Vec<u8>),
}

impl File {
    /// A file that is sent along.
    pub fn new(name: String, data: Vec<u8>) -> (f: File)
        ensures
            f == File::InputFile(name, data),
    {
        File::InputFile(name, data)
    }
}

/// How the text of a message is marked up.
#[derive(Debug, Clone, Copy, PartialEq, Eq)]
pub enum ParseMode {
    Markdown,
    HTML,
    Text,
}

impl ParseMode {
    /// The name of the mode in a request.
    pub open spec fn spec_name(self) -> Seq<char> {
        match self {
            ParseMode::Markdown => "Markdown"@,
            ParseMode::HTML => "HTML"@,
            ParseMode::Text => "Text"@,
        }
    }

    /// The name of the mode in a request.
    pub fn name(self) -> (r: &'static str)
        ensures
            r@ == self.spec_name(),
    {
        match self {
            ParseMode::Markdown => "Markdown",
            ParseMode::HTML => "HTML",
            ParseMode::Text => "Text",
        }
    }
}

/// What the bot shows itself to be doing.
#[derive(Debug, Clone, Copy, PartialEq, Eq)]
pub enum Action {
    Typing,
    UploadPhoto,
    RecordVideo,
    UploadVideo,
    RecordAudio,
    UploadAudio,
    UploadDocument,
    FindLocation,
}

impl Action {
    /// The name of the action in a request. Recording audio goes under the
    /// name of recording video.
    pub open spec fn spec_name(self) -> Seq<char> {
        match self {
            Action::Typing => "Typing"@,
            Action::UploadPhoto => "UploadPhoto"@,
            Action::RecordVideo => "RecordVideo"@,
            Action::UploadVideo => "UploadVideo"@,
            Action::RecordAudio => "RecordVideo"@,
            Action::UploadAudio => "UploadAudio"@,
            Action::UploadDocument => "UploadDocument"@,
            Action::FindLocation => "FindLocation"@,
        }
    }

    /// The name of the action in a request.
    pub fn name(self) -> (r: &'static str)
        ensures
            r@ == self.spec_name(),
    {
        match self {
            Action::Typing => "Typing",
            Action::UploadPhoto => "UploadPhoto",
            Action::RecordVideo => "RecordVideo",
            Action::UploadVideo => "UploadVideo",
            Action::RecordAudio => "RecordVideo",
            Action::UploadAudio => "UploadAudio",
            Action::UploadDocument => "UploadDocument",
            Action::FindLocation => "FindLocation",
        }
    }
}

} // verus!
