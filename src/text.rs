use vstd::prelude::*;
use crate::error::MessagingError;
use vstd::string::StringSliceAdditionalSpecFns;

verus! {

/// Whether a character is alphabetic or numeric in the Unicode sense.
pub uninterp spec fn is_alphanumeric_char(c: char) -> bool;

/// ASCII letters and digits.
pub open spec fn is_ascii_alphanumeric(c: char) -> bool {
    ('a' <= c && c <= 'z') || ('A' <= c && c <= 'Z') || ('0' <= c && c <= '9')
}

/// Relies on char::is_alphanumeric: Unicode Alphabetic or Numeric; among
/// ASCII characters exactly the letters and digits.
#[verifier::external_body]
fn alphanumeric(c: char) -> (r: bool)
    ensures
        r == is_alphanumeric_char(c),
        (c as u32) < 128 ==> (r <==> is_ascii_alphanumeric(c)),
{
    c.is_alphanumeric()
}

/// Relies on str::chars: the characters of the text, in order.
#[verifier::external_body]
pub(crate) fn chars_of(s: &str) -> (r: Vec<char>)
    ensures
        r@ == s@,
{
    s.chars().collect()
}

/// Relies on collecting characters into a String: the text made of `v`.
#[verifier::external_body]
pub(crate) fn string_from_chars(v: &[char]) -> (r: String)
    ensures
        r@ == v@,
{
    v.iter().collect()
}

/// The Unicode White_Space property, which char::is_whitespace tests.
pub open spec fn is_unicode_whitespace(c: char) -> bool {
    ('\t' <= c && c <= '\r') || c == ' ' || c == '\u{85}' || c == '\u{a0}' || c == '\u{1680}' || (
    '\u{2000}' <= c && c <= '\u{200a}') || c == '\u{2028}' || c == '\u{2029}' || c == '\u{202f}'
        || c == '\u{205f}' || c == '\u{3000}'
}

/// Punctuation that message text may keep.
pub open spec fn is_allowed_punctuation(c: char) -> bool {
    c == '.' || c == ',' || c == '!' || c == '?' || c == '-' || c == '_' || c == '@' || c == '#'
        || c == '$' || c == '%' || c == '^' || c == '&' || c == '*' || c == '(' || c == ')' || c
        == '+' || c == '=' || c == '[' || c == ']' || c == '{' || c == '}' || c == '|' || c == ';'
        || c == ':' || c == '\'' || c == '"' || c == '/' || c == '~' || c == '`' || c == '<' || c
        == '>'
}

/// Characters that survive sanitizing.
pub open spec fn keeps_char(c: char) -> bool {
    is_alphanumeric_char(c) || is_unicode_whitespace(c) || is_allowed_punctuation(c)
}

/// Text whose characters are all whitespace (the empty text included).
pub open spec fn is_blank(s: Seq<char>) -> bool {
    forall|i: int| 0 <= i < s.len() ==> is_unicode_whitespace(#[trigger] s[i])
}

/// The words of `s` separated by single spaces: each run of whitespace between
/// two words becomes one space, and whitespace at either end is dropped.
pub open spec fn collapse_whitespace(s: Seq<char>) -> Seq<char>
    decreases s.len(),
{
    if s.len() == 0 {
        s
    } else {
        let p = collapse_whitespace(s.drop_last());
        let c = s.last();
        if is_unicode_whitespace(c) {
            p
        } else if s.len() >= 2 && is_unicode_whitespace(s[s.len() - 2]) && p.len() > 0 {
            p.push(' ').push(c)
        } else {
            p.push(c)
        }
    }
}

/// Sanitized text: disallowed characters removed, then whitespace collapsed.
pub open spec fn sanitized(s: Seq<char>) -> Seq<char> {
    collapse_whitespace(kept_chars(s))
}

/// The characters of `s` that survive sanitizing, in order.
pub open spec fn kept_chars(s: Seq<char>) -> Seq<char>
    decreases s.len(),
{
    if s.len() == 0 {
        s
    } else if keeps_char(s.last()) {
        kept_chars(s.drop_last()).push(s.last())
    } else {
        kept_chars(s.drop_last())
    }
}

/// Text made only of alphanumeric, non-whitespace characters (such as ASCII
/// letters and digits) is left as it is by sanitizing.
pub proof fn lemma_sanitize_keeps_word(t: Seq<char>)
    requires
        forall|i: int| 0 <= i < t.len() ==> is_alphanumeric_char(#[trigger] t[i]) && !is_unicode_whitespace(t[i]),
    ensures
        sanitized(t) == t,
    decreases t.len(),
{
    lemma_kept_all(t);
    lemma_collapse_word(t);
}

proof fn lemma_kept_all(t: Seq<char>)
    requires
        forall|i: int| 0 <= i < t.len() ==> is_alphanumeric_char(#[trigger] t[i]),
    ensures
        kept_chars(t) == t,
    decreases t.len(),
{
    if t.len() > 0 {
        lemma_kept_all(t.drop_last());
        assert(t.drop_last().push(t.last()) =~= t);
    }
}

proof fn lemma_collapse_word(t: Seq<char>)
    requires
        forall|i: int| 0 <= i < t.len() ==> !is_unicode_whitespace(#[trigger] t[i]),
    ensures
        collapse_whitespace(t) == t,
    decreases t.len(),
{
    if t.len() > 0 {
        lemma_collapse_word(t.drop_last());
        assert(t.drop_last().push(t.last()) =~= t);
        if t.len() >= 2 {
            assert(!is_unicode_whitespace(t[t.len() - 2]));
        }
    }
}

/// Tests the Unicode White_Space property.
pub fn is_whitespace_char(c: char) -> (r: bool)
    ensures
        r == is_unicode_whitespace(c),
{
    ('\t' <= c && c <= '\r') || c == ' ' || c == '\u{85}' || c == '\u{a0}' || c == '\u{1680}' || (
    '\u{2000}' <= c && c <= '\u{200a}') || c == '\u{2028}' || c == '\u{2029}' || c == '\u{202f}'
        || c == '\u{205f}' || c == '\u{3000}'
}

fn is_allowed_punctuation_char(c: char) -> (r: bool)
    ensures
        r == is_allowed_punctuation(c),
{
    c == '.' || c == ',' || c == '!' || c == '?' || c == '-' || c == '_' || c == '@' || c == '#'
        || c == '$' || c == '%' || c == '^' || c == '&' || c == '*' || c == '(' || c == ')' || c
        == '+' || c == '=' || c == '[' || c == ']' || c == '{' || c == '}' || c == '|' || c == ';'
        || c == ':' || c == '\'' || c == '"' || c == '/' || c == '~' || c == '`' || c == '<' || c
        == '>'
}

/// Fails with a validation error when the text is longer than `max_length` bytes.
pub fn validate_text_length(text: &str, max_length: usize) -> (r: Result<(), MessagingError>)
    ensures
        r is Ok <==> text.spec_bytes().len() <= max_length,
        r is Err ==> r == Err::<(), MessagingError>(MessagingError::Validation),
{
    if text.as_bytes().len() > max_length {
        return Err(MessagingError::Validation);
    }
    Ok(())
}

/// Fails with a validation error when the text is empty or all whitespace.
pub fn validate_text_not_empty(text: &str) -> (r: Result<(), MessagingError>)
    ensures
        r is Ok <==> !is_blank(text@),
        r is Err ==> r == Err::<(), MessagingError>(MessagingError::Validation),
{
    let chars = chars_of(text);
    let mut i: usize = 0;
    while i < chars.len()
        invariant
            i <= chars.len(),
            chars@ == text@,
            forall|k: int| 0 <= k < i ==> is_unicode_whitespace(#[trigger] chars@[k]),
        decreases chars.len() - i,
    {
        if !is_whitespace_char(chars[i]) {
            return Ok(());
        }
        i = i + 1;
    }
    Err(MessagingError::Validation)
}

/// Removes characters outside letters, digits, whitespace and common
/// punctuation, then collapses whitespace runs to single spaces and trims.
pub fn sanitize_text(text: &str) -> (r: String)
    ensures
        r@ == sanitized(text@),
        forall|i: int|
            0 <= i < text@.len() && (text@[i] as u32) < 128 ==> (is_alphanumeric_char(#[trigger] text@[i])
                <==> is_ascii_alphanumeric(text@[i])),
{
    let chars = chars_of(text);
    let mut kept: Vec<char> = Vec::new();
    let mut i: usize = 0;
    while i < chars.len()
        invariant
            i <= chars.len(),
            chars@ == text@,
            kept@ == kept_chars(chars@.take(i as int)),
            forall|k: int|
                0 <= k < i && (chars@[k] as u32) < 128 ==> (is_alphanumeric_char(#[trigger] chars@[k])
                    <==> is_ascii_alphanumeric(chars@[k])),
        decreases chars.len() - i,
    {
        let c = chars[i];
        assert(chars@.take(i + 1).drop_last() =~= chars@.take(i as int));
        assert(chars@.take(i + 1).last() == c);
        let alnum = alphanumeric(c);
        let keep = alnum || is_whitespace_char(c) || is_allowed_punctuation_char(c);
        assert(keep == keeps_char(c));
        if keep {
            kept.push(c);
        }
        i = i + 1;
    }
    assert(chars@.take(chars.len() as int) =~= chars@);
    let mut out: Vec<char> = Vec::new();
    let mut j: usize = 0;
    while j < kept.len()
        invariant
            j <= kept.len(),
            out@ == collapse_whitespace(kept@.take(j as int)),
        decreases kept.len() - j,
    {
        let c = kept[j];
        let ghost pre = kept@.take(j + 1);
        assert(pre.drop_last() =~= kept@.take(j as int));
        if !is_whitespace_char(c) {
            if j >= 1 && is_whitespace_char(kept[j - 1]) && out.len() > 0 {
                out.push(' ');
            }
            out.push(c);
        }
        j = j + 1;
    }
    assert(kept@.take(kept.len() as int) =~= kept@);
    string_from_chars(out.as_slice())
}

/// Fails with a validation error on empty data or data over one million bytes.
pub fn validate_phi_encryption(data: &str) -> (r: Result<(), MessagingError>)
    ensures
        r is Ok <==> data@.len() > 0 && data.spec_bytes().len() <= 1_000_000,
        r is Err ==> r == Err::<(), MessagingError>(MessagingError::Validation),
{
    if data.is_empty() {
        return Err(MessagingError::Validation);
    }
    if data.as_bytes().len() > 1_000_000 {
        return Err(MessagingError::Validation);
    }
    Ok(())
}

/// Fails with a validation error on an empty id or one over 128 bytes.
pub fn validate_conversation_id(conversation_id: &str) -> (r: Result<(), MessagingError>)
    ensures
        r is Ok <==> conversation_id@.len() > 0 && conversation_id.spec_bytes().len() <= 128,
        r is Err ==> r == Err::<(), MessagingError>(MessagingError::Validation),
{
    if conversation_id.is_empty() {
        return Err(MessagingError::Validation);
    }
    if conversation_id.as_bytes().len() > 128 {
        return Err(MessagingError::Validation);
    }
    Ok(())
}

/// Whether byte position `i` of a session id holds a dash.
pub open spec fn is_uuid_dash_position(i: int) -> bool {
    i == 8 || i == 13 || i == 18 || i == 23
}

/// UUID shape: 36 bytes, split by dashes into groups of 8, 4, 4, 4 and 12.
pub open spec fn has_uuid_shape(b: Seq<u8>) -> bool {
    b.len() == 36 && forall|i: int| 0 <= i < 36 ==> ((b[i] == 45u8) <==> is_uuid_dash_position(i))
}

/// Fails with a validation error unless the id has the 8-4-4-4-12 UUID shape.
pub fn validate_session_id(session_id: &str) -> (r: Result<(), MessagingError>)
    ensures
        r is Ok <==> has_uuid_shape(session_id.spec_bytes()),
        r is Err ==> r == Err::<(), MessagingError>(MessagingError::Validation),
{
    let b = session_id.as_bytes();
    if b.len() != 36 {
        return Err(MessagingError::Validation);
    }
    let mut i: usize = 0;
    while i < 36
        invariant
            i <= 36,
            b@.len() == 36,
            b@ == session_id.spec_bytes(),
            forall|k: int| 0 <= k < i ==> ((b@[k] == 45u8) <==> is_uuid_dash_position(k)),
        decreases 36 - i,
    {
        let dash_here = i == 8 || i == 13 || i == 18 || i == 23;
        if (b[i] == 45u8) != dash_here {
            assert(!((b@[i as int] == 45u8) <==> is_uuid_dash_position(i as int)));
            assert(!has_uuid_shape(b@));
            return Err(MessagingError::Validation);
        }
        i = i + 1;
    }
    Ok(())
}

} // verus!
