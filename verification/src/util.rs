//! Character classes of the XML 1.0 grammar.

use vstd::prelude::*;

verus! {

/// Whether `c` is an ASCII letter or digit.
pub open spec fn ascii_alnum(c: char) -> bool {
    ||| '0' <= c <= '9'
    ||| 'a' <= c <= 'z'
    ||| 'A' <= c <= 'Z'
}

/// The `Char` production: the characters that may occur in a document.
pub open spec fn xml_char(c: char) -> bool {
    ||| c == '\u{9}'
    ||| c == '\u{A}'
    ||| c == '\u{D}'
    ||| '\u{20}' <= c <= '\u{D7FF}'
    ||| '\u{E000}' <= c <= '\u{FFFD}'
    ||| '\u{10000}' <= c <= '\u{10FFFF}'
}

/// The `NameStartChar` production, colon included.
pub open spec fn name_start_char(c: char) -> bool {
    ||| c == ':'
    ||| c == '_'
    ||| 'a' <= c <= 'z'
    ||| 'A' <= c <= 'Z'
    ||| '\u{C0}' <= c <= '\u{D6}'
    ||| '\u{D8}' <= c <= '\u{F6}'
    ||| '\u{F8}' <= c <= '\u{2FF}'
    ||| '\u{370}' <= c <= '\u{37D}'
    ||| '\u{37F}' <= c <= '\u{1FFF}'
    ||| '\u{200C}' <= c <= '\u{200D}'
    ||| '\u{2070}' <= c <= '\u{218F}'
    ||| '\u{2C00}' <= c <= '\u{2FEF}'
    ||| '\u{3001}' <= c <= '\u{D7FF}'
    ||| '\u{F900}' <= c <= '\u{FDCF}'
    ||| '\u{FDF0}' <= c <= '\u{FFFD}'
    ||| '\u{10000}' <= c <= '\u{EFFFF}'
}

/// The `NameChar` production: a name-start character, or one of the
/// characters that may only continue a name.
pub open spec fn name_char(c: char) -> bool {
    ||| name_start_char(c)
    ||| c == '-'
    ||| c == '.'
    ||| c == '\u{B7}'
    ||| '0' <= c <= '9'
    ||| '\u{300}' <= c <= '\u{36F}'
    ||| '\u{203F}' <= c <= '\u{2040}'
}

/// Is the character an ASCII alphanumeric character?
pub fn is_ascii_alnum(c: char) -> (r: bool)
    ensures
        r == ascii_alnum(c),
{
    matches!(c, '0'..='9' | 'a'..='z' | 'A'..='Z')
}

/// Is the character allowed in an XML document?
pub fn is_xml_char(c: char) -> (r: bool)
    ensures
        r == xml_char(c),
{
    matches!(c,
        '\x09' | '\x0A' | '\x0D' | '\x20'..='\u{D7FF}' | '\u{E000}'..='\u{FFFD}'
        | '\u{10000}'..='\u{10FFFF}')
}

/// May the character start an XML name?
pub fn is_name_start_char(c: char) -> (r: bool)
    ensures
        r == name_start_char(c),
{
    matches!(c,
        ':' | '_' | 'a'..='z' | 'A'..='Z' | '\u{C0}'..='\u{D6}'
        | '\u{D8}'..='\u{F6}' | '\u{F8}'..='\u{2FF}' | '\u{370}'..='\u{37D}'
        | '\u{37F}'..='\u{1FFF}' | '\u{200C}'..='\u{200D}'
        | '\u{2070}'..='\u{218F}' | '\u{2C00}'..='\u{2FEF}'
        | '\u{3001}'..='\u{D7FF}' | '\u{F900}'..='\u{FDCF}'
        | '\u{FDF0}'..='\u{FFFD}' | '\u{10000}'..='\u{EFFFF}')
}

/// May the character occur in an XML name after its first character?
pub fn is_name_char(c: char) -> (r: bool)
    ensures
        r == name_char(c),
{
    is_name_start_char(c) || matches!(c,
        '-' | '.' | '\u{B7}' | '0'..='9' | '\u{300}'..='\u{36F}' | '\u{203F}'..='\u{2040}')
}

} // verus!
