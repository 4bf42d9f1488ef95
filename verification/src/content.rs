//! What is written for text, comments, processing instructions and
//! document type declarations.

use vstd::prelude::*;
use vstd::string::*;
use crate::error::{Emission, SerializeError};
use crate::escape::{escape_emission, write_escaped_text};
use crate::text::{
    contains_char, contains_pair, ends_with, ends_with_char, has_pair, is_xml_ignore_case,
    is_xml_word,
};

verus! {

/// A text between tags: escaped.
pub open spec fn text_emission(text: Seq<char>, well_formed: bool) -> Emission {
    escape_emission(text, false, well_formed)
}

/// A comment. Where well-formedness is required, it may neither hold two
/// hyphens in a row nor end with a hyphen.
pub open spec fn comment_emission(text: Seq<char>, well_formed: bool) -> Emission {
    if well_formed && has_pair(text, '-', '-') {
        Emission::fail(SerializeError::CommentDoubleMinus)
    } else if well_formed && ends_with(text, '-') {
        Emission::fail(SerializeError::CommentEndsWithMinus)
    } else {
        Emission::of("<!--"@).followed_by(escape_emission(text, false, well_formed)).followed_by(
            Emission::of("-->"@),
        )
    }
}

/// A document type declaration: the text as it is, between its marks.
pub open spec fn doctype_emission(text: Seq<char>) -> Emission {
    Emission::of("<!DOCTYPE "@ + text + "!>"@)
}

/// A processing instruction. Where well-formedness is required, its
/// target may neither be `xml` in any case nor hold a colon, and its data
/// may not hold `?>`.
pub open spec fn processing_instruction_emission(
    target: Seq<char>,
    data: Seq<char>,
    well_formed: bool,
) -> Emission {
    if well_formed && is_xml_word(target) {
        Emission::fail(SerializeError::TargetXml)
    } else if well_formed && target.contains(':') {
        Emission::fail(SerializeError::TargetColon)
    } else if well_formed && has_pair(data, '?', '>') {
        Emission::fail(SerializeError::DataTerminator)
    } else {
        Emission::of("<?"@).followed_by(escape_emission(target, false, well_formed)).followed_by(
            Emission::of(seq![' ']),
        ).followed_by(escape_emission(data, false, well_formed)).followed_by(Emission::of("?>"@))
    }
}

/// Writes a text between tags.
pub fn write_text(out: &mut String, text: &str, well_formed: bool) -> (r: Result<(), SerializeError>)
    ensures
        final(out)@ == old(out)@ + text_emission(text@, well_formed).text,
        r == text_emission(text@, well_formed).result(),
{
    write_escaped_text(out, text, well_formed)
}

/// Writes a comment.
pub fn write_comment(out: &mut String, text: &str, well_formed: bool) -> (r: Result<(), SerializeError>)
    ensures
        final(out)@ == old(out)@ + comment_emission(text@, well_formed).text,
        r == comment_emission(text@, well_formed).result(),
{
    if well_formed {
        if contains_pair(text, '-', '-') {
            return Err(SerializeError::CommentDoubleMinus);
        } else if ends_with_char(text, '-') {
            return Err(SerializeError::CommentEndsWithMinus);
        }
    }
    out.append("<!--");
    write_escaped_text(out, text, well_formed)?;
    out.append("-->");
    Ok(())
}

/// Writes a document type declaration.
pub fn write_doctype(out: &mut String, text: &str) -> (r: Result<(), SerializeError>)
    ensures
        final(out)@ == old(out)@ + doctype_emission(text@).text,
        r == doctype_emission(text@).result(),
{
    out.append("<!DOCTYPE ");
    out.append(text);
    out.append("!>");
    Ok(())
}

/// Writes a processing instruction.
pub fn write_processing_instruction(out: &mut String, target: &str, data: &str, well_formed: bool) -> (r:
    Result<(), SerializeError>)
    ensures
        final(out)@ == old(out)@ + processing_instruction_emission(target@, data@, well_formed).text,
        r == processing_instruction_emission(target@, data@, well_formed).result(),
{
    if well_formed {
        if is_xml_ignore_case(target) {
            return Err(SerializeError::TargetXml);
        }
        if contains_char(target, ':') {
            return Err(SerializeError::TargetColon);
        }
        if contains_pair(data, '?', '>') {
            return Err(SerializeError::DataTerminator);
        }
    }
    out.append("<?");
    write_escaped_text(out, target, well_formed)?;
    out.push(' ');
    write_escaped_text(out, data, well_formed)?;
    out.append("?>");
    Ok(())
}

} // verus!
