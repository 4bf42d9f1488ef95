//! Escaping of character data and of attribute values.

use vstd::prelude::*;
use vstd::string::*;
use crate::error::{Emission, SerializeError};
use crate::util::{is_xml_char, xml_char};

verus! {

broadcast use vstd::string::group_string_axioms;

/// What is written for one character: a reference for `&`, `<` and `>`, and
/// in an attribute value for `"`; the character itself otherwise.
pub open spec fn escape_char(c: char, in_attr: bool) -> Seq<char> {
    if c == '&' {
        seq!['&', 'a', 'm', 'p', ';']
    } else if c == '>' {
        seq!['&', 'g', 't', ';']
    } else if c == '<' {
        seq!['&', 'l', 't', ';']
    } else if in_attr && c == '"' {
        seq!['&', 'q', 'u', 'o', 't', ';']
    } else {
        seq![c]
    }
}

/// What is written for a text: what is written for each of its characters,
/// in their order.
pub open spec fn escaped(s: Seq<char>, in_attr: bool) -> Seq<char>
    decreases s.len(),
{
    if s.len() == 0 {
        Seq::empty()
    } else {
        escape_char(s[0], in_attr) + escaped(s.drop_first(), in_attr)
    }
}

/// How many characters of `s` stand before the first one that no XML
/// document may hold: the length of `s` where it holds none.
pub open spec fn valid_len(s: Seq<char>) -> nat
    decreases s.len(),
{
    if s.len() == 0 || !xml_char(s[0]) {
        0
    } else {
        1 + valid_len(s.drop_first())
    }
}

/// What writing `s` gives. Every character is escaped. Where
/// well-formedness is required, the writing stops before the first
/// character that no XML document may hold.
pub open spec fn escape_emission(s: Seq<char>, in_attr: bool, well_formed: bool) -> Emission {
    let n = valid_len(s) as int;
    if well_formed && n < s.len() {
        Emission { text: escaped(s.take(n), in_attr), error: Some(SerializeError::InvalidChar(s[n])) }
    } else {
        Emission::of(escaped(s, in_attr))
    }
}

/// Escaping a text with one more character adds what is written for that
/// character.
pub proof fn lemma_escaped_push(s: Seq<char>, c: char, in_attr: bool)
    ensures
        escaped(s.push(c), in_attr) == escaped(s, in_attr) + escape_char(c, in_attr),
    decreases s.len(),
{
    if s.len() == 0 {
        assert(s.push(c).drop_first() == s);
    } else {
        assert(s.push(c).drop_first() == s.drop_first().push(c));
        lemma_escaped_push(s.drop_first(), c, in_attr);
    }
}

/// `valid_len` is the place of the first character that no document may
/// hold.
pub proof fn lemma_valid_len(s: Seq<char>, k: int)
    requires
        0 <= k <= s.len(),
        forall|j: int| 0 <= j < k ==> xml_char(s[j]),
        k < s.len() ==> !xml_char(s[k]),
    ensures
        valid_len(s) == k,
    decreases s.len(),
{
    if k > 0 {
        let rest = s.drop_first();
        assert forall|j: int| 0 <= j < k - 1 implies xml_char(rest[j]) by {
            assert(rest[j] == s[j + 1]);
        }
        lemma_valid_len(rest, k - 1);
    }
}

/// Appends `text` to `out`, escaped as text between tags. Where
/// `well_formed` is set, stops before the first character that no XML
/// document may hold.
pub fn write_escaped_text(out: &mut String, text: &str, well_formed: bool) -> (r: Result<
    (),
    SerializeError,
>)
    ensures
        final(out)@ == old(out)@ + escape_emission(text@, false, well_formed).text,
        r == escape_emission(text@, false, well_formed).result(),
{
    write_escaped(out, text, false, well_formed)
}

/// Appends `attr_value` to `out`, escaped as an attribute value between
/// double quotes. Where `well_formed` is set, stops before the first
/// character that no XML document may hold.
pub fn serialize_attr_value(out: &mut String, attr_value: &str, well_formed: bool) -> (r: Result<
    (),
    SerializeError,
>)
    ensures
        final(out)@ == old(out)@ + escape_emission(attr_value@, true, well_formed).text,
        r == escape_emission(attr_value@, true, well_formed).result(),
{
    write_escaped(out, attr_value, true, well_formed)
}

fn write_escaped(out: &mut String, text: &str, in_attr: bool, well_formed: bool) -> (r: Result<
    (),
    SerializeError,
>)
    ensures
        final(out)@ == old(out)@ + escape_emission(text@, in_attr, well_formed).text,
        r == escape_emission(text@, in_attr, well_formed).result(),
{
    for c in it: text.chars()
        invariant
            it.seq() == text@,
            out@ == old(out)@ + escaped(text@.take(it.index()), in_attr),
            well_formed ==> forall|j: int| 0 <= j < it.index() ==> xml_char(text@[j]),
    {
        let ghost i = it.index();
        proof {
            lemma_escaped_push(text@.take(i), c, in_attr);
            assert(text@.take(i + 1) == text@.take(i).push(c));
            reveal_strlit("&amp;");
            reveal_strlit("&gt;");
            reveal_strlit("&lt;");
            reveal_strlit("&quot;");
        }
        if c == '&' {
            out.append("&amp;");
        } else if c == '>' {
            out.append("&gt;");
        } else if c == '<' {
            out.append("&lt;");
        } else if in_attr && c == '"' {
            out.append("&quot;");
        } else {
            if well_formed && !is_xml_char(c) {
                proof {
                    lemma_valid_len(text@, i);
                }
                return Err(SerializeError::InvalidChar(c));
            }
            out.push(c);
        }
    }
    proof {
        assert(text@.take(text@.len() as int) == text@);
        if well_formed {
            lemma_valid_len(text@, text@.len() as int);
        }
    }
    Ok(())
}

/// The character that the reference at the start of `t` stands for, and
/// the length of the reference: for the four references that escaping
/// writes.
pub open spec fn reference_at(t: Seq<char>) -> Option<(char, int)> {
    if t.len() >= 5 && t.take(5) == seq!['&', 'a', 'm', 'p', ';'] {
        Some(('&', 5int))
    } else if t.len() >= 4 && t.take(4) == seq!['&', 'g', 't', ';'] {
        Some(('>', 4int))
    } else if t.len() >= 4 && t.take(4) == seq!['&', 'l', 't', ';'] {
        Some(('<', 4int))
    } else if t.len() >= 6 && t.take(6) == seq!['&', 'q', 'u', 'o', 't', ';'] {
        Some(('"', 6int))
    } else {
        None
    }
}

/// `c` before the text in `rest`, where there is one.
pub open spec fn prepend(c: char, rest: Option<Seq<char>>) -> Option<Seq<char>> {
    match rest {
        Some(s) => Some(seq![c] + s),
        None => None,
    }
}

/// What a conforming XML parser reads from `t`, taken as the text between
/// two tags or, with `in_attr`, as an attribute value between double
/// quotes; nothing where it refuses `t`.
///
/// The parser refuses a character that no document may hold, a `<`, an `&`
/// that starts no reference and, in an attribute value, a `"`. It reads a
/// reference as the character that it stands for, a line break of any form
/// as a line feed and, in an attribute value, a tab or line break as a
/// space. This model follows the four references that escaping writes and
/// no raw `>`: for other references and for a raw `>` it gives nothing too.
pub open spec fn parsed(t: Seq<char>, in_attr: bool) -> Option<Seq<char>>
    decreases t.len(),
{
    if t.len() == 0 {
        Some(Seq::empty())
    } else {
        let c = t[0];
        if c == '<' || c == '>' || !xml_char(c) || (in_attr && c == '"') {
            None
        } else if c == '&' {
            match reference_at(t) {
                Some((r, n)) => prepend(r, parsed(t.skip(n), in_attr)),
                None => None,
            }
        } else if c == '\r' {
            let rest = if t.len() > 1 && t[1] == '\n' {
                t.skip(2)
            } else {
                t.skip(1)
            };
            prepend(
                if in_attr {
                    ' '
                } else {
                    '\n'
                },
                parsed(rest, in_attr),
            )
        } else if in_attr && (c == '\t' || c == '\n') {
            prepend(' ', parsed(t.skip(1), in_attr))
        } else {
            prepend(c, parsed(t.skip(1), in_attr))
        }
    }
}

/// Whether a parser reads `c` as it stands: it is a character that a
/// document may hold, no carriage return and, in an attribute value, no
/// tab or line feed.
pub open spec fn read_as_written(c: char, in_attr: bool) -> bool {
    &&& xml_char(c)
    &&& c != '\r'
    &&& in_attr ==> c != '\t' && c != '\n'
}

/// Escaping and reading back gives the text: a conforming parser reads
/// the escaped form of `s`, as text between tags or as attribute value,
/// as `s`. This holds of every `s` whose characters are read as they
/// stand.
pub proof fn lemma_escape_round_trip(s: Seq<char>, in_attr: bool)
    requires
        forall|i: int| 0 <= i < s.len() ==> read_as_written(#[trigger] s[i], in_attr),
    ensures
        parsed(escaped(s, in_attr), in_attr) == Some(s),
        forall|well_formed: bool| #[trigger]
            escape_emission(s, in_attr, well_formed) == Emission::of(escaped(s, in_attr)),
    decreases s.len(),
{
    lemma_valid_len(s, s.len() as int);
    if s.len() > 0 {
        let c = s[0];
        let rest = s.drop_first();
        let head = escape_char(c, in_attr);
        let tail = escaped(rest, in_attr);
        let t = head + tail;
        assert forall|i: int| 0 <= i < rest.len() implies read_as_written(
            #[trigger] rest[i],
            in_attr,
        ) by {
            assert(rest[i] == s[i + 1]);
        }
        lemma_escape_round_trip(rest, in_attr);
        assert(t.skip(head.len() as int) =~= tail);
        assert(t.take(head.len() as int) =~= head);
    }
}

} // verus!
