//! The ways in which a run can fail.

use vstd::prelude::*;
use vstd::std_specs::convert::FromSpec;

verus! {

/// What the user supplied cannot be used: a missing path, an unknown scheme,
/// a file that does not hold what it should.
#[derive(Debug, Clone)]
pub struct InputError {
    description: String,
}

impl View for InputError {
    type V = Seq<char>;

    closed spec fn view(&self) -> Seq<char> {
        self.description@
    }
}

impl InputError {
    /// An input error with this description.
    pub fn new(description: &str) -> (error: InputError)
        ensures
            error@ == description@,
    {
        InputError { description: description.to_owned() }
    }

    /// What went wrong, in words.
    pub fn description(&self) -> (text: &str)
        ensures
            text@ == self@,
    {
        self.description.as_str()
    }
}

impl From<String> for InputError {
    fn from(description: String) -> (error: InputError) {
        InputError { description }
    }
}

impl vstd::std_specs::convert::FromSpecImpl<String> for InputError {
    open spec fn obeys_from_spec() -> bool {
        true
    }

    closed spec fn from_spec(description: String) -> InputError {
        InputError { description }
    }
}

/// `InputError::from` keeps the description that it was given.
pub proof fn lemma_input_error_from(description: String)
    ensures
        <InputError as FromSpec<String>>::from_spec(description)@ == description@,
{
}

/// The repository could not give what was asked of it: a commit's tree, the
/// difference between two trees, or the size of that difference.
#[derive(Debug, Clone)]
pub struct BackendError {
    pub message: String,
}

impl View for BackendError {
    type V = Seq<char>;

    open spec fn view(&self) -> Seq<char> {
        self.message@
    }
}

/// How a file failed to be read as JSON.
#[derive(Debug, Clone, Copy, PartialEq, Eq, Structural)]
pub enum JsonCategory {
    /// The bytes could not be read.
    Io,
    /// The text is not JSON.
    Syntax,
    /// The text is JSON of another shape than the one expected.
    Data,
    /// The text ended too early.
    Eof,
}

/// The words that introduce a JSON error of each category.
pub open spec fn json_prefix(category: JsonCategory) -> Seq<char> {
    match category {
        JsonCategory::Io => "An IO error occurred: "@,
        JsonCategory::Syntax => "A syntax error occurred: "@,
        JsonCategory::Data => "A data error occurred: "@,
        JsonCategory::Eof => "Unexpected EOF. "@,
    }
}

/// What a `CliError` stands for.
pub ghost enum CliErrorView {
    Git(Seq<char>),
    IO(Seq<char>),
    Input(Seq<char>),
}

/// Any failure of a run.
#[derive(Debug, Clone)]
pub enum CliError {
    /// The repository failed.
    Git(BackendError),
    /// A file could not be opened or read; the text says why.
    IO(String),
    /// The input cannot be used.
    Input(InputError),
}

impl View for CliError {
    type V = CliErrorView;

    open spec fn view(&self) -> CliErrorView {
        match self {
            CliError::Git(error) => CliErrorView::Git(error@),
            CliError::IO(text) => CliErrorView::IO(text@),
            CliError::Input(error) => CliErrorView::Input(error@),
        }
    }
}

/// The words that describe a failure.
pub open spec fn description_of(error: CliErrorView) -> Seq<char> {
    match error {
        CliErrorView::Git(text) => text,
        CliErrorView::IO(text) => text,
        CliErrorView::Input(text) => text,
    }
}

impl CliError {
    /// The failure to read a file as JSON, as an input error: the words for
    /// its category, followed by the detail that the reader gave.
    pub fn from_json(category: JsonCategory, detail: &str) -> (error: CliError)
        ensures
            error@ == CliErrorView::Input(json_prefix(category) + detail@),
    {
        let prefix = match category {
            JsonCategory::Io => "An IO error occurred: ",
            JsonCategory::Syntax => "A syntax error occurred: ",
            JsonCategory::Data => "A data error occurred: ",
            JsonCategory::Eof => "Unexpected EOF. ",
        };
        let mut description = prefix.to_owned();
        description.append(detail);
        CliError::Input(InputError::from(description))
    }

    /// What went wrong, in words.
    pub fn description(&self) -> (text: &str)
        ensures
            text@ == description_of(self@),
    {
        match self {
            CliError::Git(error) => error.message.as_str(),
            CliError::IO(text) => text.as_str(),
            CliError::Input(error) => error.description(),
        }
    }
}

} // verus!
