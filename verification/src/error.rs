//! The reasons for which serialization stops.

use vstd::prelude::*;
use vstd::string::*;

verus! {

/// Why a document cannot be written as well-formed XML.
#[derive(Clone, Copy, Debug, PartialEq, Eq, Structural)]
pub enum SerializeError {
    /// A local name holds a colon.
    LocalNameColon,
    /// A local name starts with a character that no name may start with.
    LocalNameStart(char),
    /// A local name holds, behind its first character, a character that no
    /// name may hold.
    LocalNameChar(char),
    /// Two attributes of one element have the same namespace and local name.
    DuplicateAttribute,
    /// An attribute in no namespace is named `xmlns`.
    XmlnsAttribute,
    /// A text holds a character that no XML document may hold.
    InvalidChar(char),
    /// A namespace declaration declares the namespace of declarations.
    XmlnsNamespaceDeclared,
    /// A namespace declaration declares the empty namespace.
    EmptyNamespaceDeclared,
    /// An element has the prefix `xmlns`.
    XmlnsElementPrefix,
    /// A comment holds two hyphens in a row.
    CommentDoubleMinus,
    /// A comment ends with a hyphen.
    CommentEndsWithMinus,
    /// The target of a processing instruction is `xml`, in whatever case.
    TargetXml,
    /// The target of a processing instruction holds a colon.
    TargetColon,
    /// The data of a processing instruction hold `?>`.
    DataTerminator,
}

/// A sentence with a character in its middle.
pub open spec fn around(before: Seq<char>, c: char, after: Seq<char>) -> Seq<char> {
    before.push(c) + after
}

fn sentence_around(before: &str, c: char, after: &str) -> (text: String)
    ensures
        text@ == around(before@, c, after@),
{
    let mut text = before.to_owned();
    text.push(c);
    text.append(after);
    text
}

impl SerializeError {
    /// The error in words.
    pub open spec fn message_text(self) -> Seq<char> {
        match self {
            SerializeError::LocalNameColon => "Local name can't contain `:`."@,
            SerializeError::LocalNameStart(c) => around("Local name can't start with `"@, c, "`."@),
            SerializeError::LocalNameChar(c) => around("Local name can't contain `"@, c, "`."@),
            SerializeError::DuplicateAttribute =>
                "Two attributes of an element have the same namespace and local name."@,
            SerializeError::XmlnsAttribute => "An attribute in no namespace can't be named `xmlns`."@,
            SerializeError::InvalidChar(c) => around("Character `"@, c, "` is not valid in XML."@),
            SerializeError::XmlnsNamespaceDeclared =>
                "A namespace declaration can't declare the namespace of namespace declarations."@,
            SerializeError::EmptyNamespaceDeclared =>
                "A namespace declaration can't undeclare a namespace (use a default namespace instead)."@,
            SerializeError::XmlnsElementPrefix =>
                "An element with the prefix `xmlns` can't be read back by an XML parser."@,
            SerializeError::CommentDoubleMinus => "Comment contains double minus `--`."@,
            SerializeError::CommentEndsWithMinus => "Comment ends with minus."@,
            SerializeError::TargetXml => "Processing instruction target can't be equal to `xml`."@,
            SerializeError::TargetColon => "Processing instruction target contains `:`."@,
            SerializeError::DataTerminator => "Processing instruction data contains `?>`."@,
        }
    }

    /// The error in words.
    pub fn message(&self) -> (text: String)
        ensures
            text@ == self.message_text(),
    {
        match self {
            SerializeError::LocalNameColon => "Local name can't contain `:`.".to_owned(),
            SerializeError::LocalNameStart(c) => sentence_around(
                "Local name can't start with `",
                *c,
                "`.",
            ),
            SerializeError::LocalNameChar(c) => sentence_around("Local name can't contain `", *c, "`."),
            SerializeError::DuplicateAttribute =>
                "Two attributes of an element have the same namespace and local name.".to_owned(),
            SerializeError::XmlnsAttribute =>
                "An attribute in no namespace can't be named `xmlns`.".to_owned(),
            SerializeError::InvalidChar(c) => sentence_around("Character `", *c, "` is not valid in XML."),
            SerializeError::XmlnsNamespaceDeclared =>
                "A namespace declaration can't declare the namespace of namespace declarations.".to_owned(),
            SerializeError::EmptyNamespaceDeclared =>
                "A namespace declaration can't undeclare a namespace (use a default namespace instead).".to_owned(),
            SerializeError::XmlnsElementPrefix =>
                "An element with the prefix `xmlns` can't be read back by an XML parser.".to_owned(),
            SerializeError::CommentDoubleMinus => "Comment contains double minus `--`.".to_owned(),
            SerializeError::CommentEndsWithMinus => "Comment ends with minus.".to_owned(),
            SerializeError::TargetXml =>
                "Processing instruction target can't be equal to `xml`.".to_owned(),
            SerializeError::TargetColon => "Processing instruction target contains `:`.".to_owned(),
            SerializeError::DataTerminator => "Processing instruction data contains `?>`.".to_owned(),
        }
    }
}

/// What a check returns that found `error`, or found nothing.
pub open spec fn checked(error: Option<SerializeError>) -> Result<(), SerializeError> {
    match error {
        Some(e) => Err(e),
        None => Ok(()),
    }
}

/// What was written, and the error that stopped the writing, if one did.
pub ghost struct Emission {
    pub text: Seq<char>,
    pub error: Option<SerializeError>,
}

impl Emission {
    /// Nothing written, no error.
    pub open spec fn nothing() -> Emission {
        Emission { text: Seq::empty(), error: None }
    }

    /// `text` written in full.
    pub open spec fn of(text: Seq<char>) -> Emission {
        Emission { text, error: None }
    }

    /// Nothing written, stopped by `error`.
    pub open spec fn fail(error: SerializeError) -> Emission {
        Emission { text: Seq::empty(), error: Some(error) }
    }

    /// This emission, and `next` behind it unless this one was stopped.
    pub open spec fn followed_by(self, next: Emission) -> Emission {
        if self.error is Some {
            self
        } else {
            Emission { text: self.text + next.text, error: next.error }
        }
    }

    /// What a function returns that wrote this emission.
    pub open spec fn result(self) -> Result<(), SerializeError> {
        checked(self.error)
    }
}

} // verus!
