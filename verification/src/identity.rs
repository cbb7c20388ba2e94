//! Which events belong together: stable identities and group keys.
use crate::identity_laws::{lemma_encoded_capitals, lemma_escaped_is_plain};
use crate::models::StoredLogEvent;
use crate::text::{
    all_digits, ascii_lowered, at_first_space, eq_ignore_ascii_case, is_digits, lowercase,
    lowercased, split_at_space, trim, trimmed, views,
};
use vstd::prelude::*;
use vstd::string::*;
use vstd::utf8::*;

verus! {

/// The segments of the path of a URL: none where the text is no URL, or is one
/// whose path does not begin with a slash.
pub uninterp spec fn url_segments(s: Seq<char>) -> Option<Seq<Seq<char>>>;

/// `Url::parse` and `Url::path_segments` of the crate url, which reqwest hands on.
#[verifier::external_body]
pub(crate) fn url_path_segments(s: &str) -> (r: Option<Vec<String>>)
    ensures
        match r {
            Some(segments) => url_segments(s@) == Some(views(segments@)),
            None => url_segments(s@) is None,
        },
{
    let url = reqwest::Url::parse(s).ok()?;
    url.path_segments().map(|segments| segments.map(|part| part.to_owned()).collect())
}

/// A letter, a digit, `-`, `_` or `.`, all of ASCII.
pub open spec fn is_plain_byte(b: u8) -> bool {
    ||| 48 <= b <= 57
    ||| 65 <= b <= 90
    ||| 97 <= b <= 122
    ||| b == 45
    ||| b == 95
    ||| b == 46
}

/// The character of an uppercase hexadecimal digit.
pub open spec fn hex_upper(n: u8) -> char {
    if n < 10 {
        (n + 48) as char
    } else {
        (n + 55) as char
    }
}

/// A byte as it stands in an identity: itself, or `%` and two digits.
pub open spec fn escaped_byte(b: u8) -> Seq<char> {
    if is_plain_byte(b) {
        seq![b as char]
    } else {
        seq!['%', hex_upper(b / 16), hex_upper(b % 16)]
    }
}

pub open spec fn escaped_bytes(bytes: Seq<u8>) -> Seq<char>
    decreases bytes.len(),
{
    if bytes.len() == 0 {
        Seq::empty()
    } else {
        escaped_bytes(bytes.drop_last()) + escaped_byte(bytes.last())
    }
}

/// An identity that does not depend on case or on white space at the ends.
pub open spec fn stable_id(value: Seq<char>) -> Seq<char> {
    escaped_bytes(encode_utf8(lowercased(trimmed(value))))
}

fn hex_char(n: u8) -> (c: char)
    requires
        n < 16,
    ensures
        c == hex_upper(n),
{
    if n < 10 {
        (n + 48) as char
    } else {
        (n + 55) as char
    }
}

/// A small letter, a digit, `-`, `_` or `.`, all of ASCII.
pub open spec fn is_identity_char(c: char) -> bool {
    'a' <= c <= 'z' || '0' <= c <= '9' || c == '-' || c == '_' || c == '.'
}

/// A hexadecimal digit, with capital letters.
pub open spec fn is_upper_hex(c: char) -> bool {
    '0' <= c <= '9' || 'A' <= c <= 'F'
}

/// Whether a text is made of plain characters, and of `%` with two hexadecimal
/// digits.
pub open spec fn is_plain_identity(s: Seq<char>) -> bool
    decreases s.len(),
{
    ||| s.len() == 0
    ||| is_identity_char(s[0]) && is_plain_identity(s.drop_first())
    ||| s.len() >= 3 && s[0] == '%' && is_upper_hex(s[1]) && is_upper_hex(s[2])
        && is_plain_identity(s.skip(3))
}

/// The identity of a text, by which events are grouped.
pub fn stable_identity(value: &str) -> (r: String)
    ensures
        r@ == stable_id(value@),
        is_plain_identity(r@),
{
    let lower = lowercase(trim(value).as_str());
    let bytes: &[u8] = lower.as_str().as_bytes();
    let mut r: String = String::new();
    let mut i: usize = 0;
    assert(bytes@.take(0) =~= Seq::<u8>::empty());
    assert(r@ =~= escaped_bytes(bytes@.take(0)));
    while i < bytes.len()
        invariant
            i <= bytes@.len(),
            r@ == escaped_bytes(bytes@.take(i as int)),
        decreases bytes@.len() - i,
    {
        let b: u8 = bytes[i];
        let ghost before = r@;
        if (48 <= b && b <= 57) || (65 <= b && b <= 90) || (97 <= b && b <= 122) || b == 45 || b
            == 95 || b == 46 {
            r.push(b as char);
        } else {
            r.push('%');
            r.push(hex_char(b / 16));
            r.push(hex_char(b % 16));
        }
        assert(r@ =~= before + escaped_byte(b));
        assert(bytes@.take(i + 1).drop_last() =~= bytes@.take(i as int));
        i += 1;
    }
    assert(bytes@.take(i as int) =~= bytes@);
    proof {
        lemma_encoded_capitals(lower@);
        lemma_escaped_is_plain(bytes@);
    }
    r
}

/// The last of some texts that is not empty.
pub open spec fn last_nonempty(parts: Seq<Seq<char>>) -> Option<Seq<char>>
    decreases parts.len(),
{
    if parts.len() == 0 {
        None
    } else if parts.last().len() > 0 {
        Some(parts.last())
    } else {
        last_nonempty(parts.drop_last())
    }
}

/// The number behind a label and a white space character, such as `ADO 42`.
pub open spec fn labelled_number(value: Seq<char>, label: Seq<char>) -> Option<Seq<char>> {
    match at_first_space(value) {
        Some((prefix, identifier)) => if ascii_lowered(prefix) == ascii_lowered(label) && is_digits(
            identifier,
        ) {
            Some(identifier)
        } else {
            None
        },
        None => None,
    }
}

/// The number in the last segment of a path.
pub open spec fn path_number(segments: Option<Seq<Seq<char>>>) -> Option<Seq<char>> {
    match segments {
        Some(parts) => match last_nonempty(parts) {
            Some(part) => if is_digits(part) {
                Some(part)
            } else {
                None
            },
            None => None,
        },
        None => None,
    }
}

/// The number of a work item or pull request, or else its stable identity;
/// `segments` is the path of the value read as a URL.
pub open spec fn reference_value(
    value: Seq<char>,
    label: Seq<char>,
    segments: Option<Seq<Seq<char>>>,
) -> Seq<char> {
    let value = trimmed(value);
    if is_digits(value) {
        value
    } else if labelled_number(value, label) is Some {
        labelled_number(value, label)->0
    } else if path_number(segments) is Some {
        path_number(segments)->0
    } else {
        stable_id(value)
    }
}

fn last_nonempty_part(parts: &Vec<String>) -> (r: Option<&String>)
    ensures
        match r {
            Some(part) => last_nonempty(views(parts@)) == Some(part@),
            None => last_nonempty(views(parts@)) is None,
        },
{
    let mut i: usize = parts.len();
    let ghost all = views(parts@);
    assert(all.take(i as int) =~= all);
    while i > 0
        invariant
            i <= parts@.len(),
            all == views(parts@),
            last_nonempty(all) == last_nonempty(all.take(i as int)),
        decreases i,
    {
        assert(all.take(i as int).drop_last() =~= all.take(i - 1));
        if !parts[i - 1].as_str().is_empty() {
            return Some(&parts[i - 1]);
        }
        i -= 1;
    }
    None
}

/// The value of a reference, given the path of its value read as a URL.
pub fn reference_from_segments(value: &str, label: &str, segments: Option<Vec<String>>) -> (r:
    String)
    ensures
        r@ == reference_value(
            value@,
            label@,
            match segments {
                Some(parts) => Some(views(parts@)),
                None => None,
            },
        ),
{
    let value = trim(value);
    if all_digits(value.as_str()) {
        return value;
    }
    if let Some((prefix, identifier)) = split_at_space(value.as_str()) {
        if eq_ignore_ascii_case(prefix.as_str(), label) && all_digits(identifier.as_str()) {
            return identifier;
        }
    }
    if let Some(parts) = segments {
        if let Some(part) = last_nonempty_part(&parts) {
            if all_digits(part.as_str()) {
                return part.as_str().to_owned();
            }
        }
    }
    stable_identity(value.as_str())
}

fn normalized_reference_value(value: &str, label: &str) -> (r: String)
    ensures
        r@ == reference_value(value@, label@, url_segments(trimmed(value@))),
{
    let segments = url_path_segments(trim(value).as_str());
    reference_from_segments(value, label, segments)
}

/// The key of the group of an event: its repository or source, with its work
/// item, pull request, task or session; an event without any stands alone.
pub open spec fn group_key(event: StoredLogEvent) -> Seq<char> {
    let namespace = namespace(event);
    match (event.text_field("work_item"@), event.text_field("pull_request"@)) {
        (Some(item), _) => namespace + "|work-item:"@ + reference_value(
            item,
            "ado"@,
            url_segments(trimmed(item)),
        ),
        (None, Some(request)) => namespace + "|pull-request:"@ + reference_value(
            request,
            "pr"@,
            url_segments(trimmed(request)),
        ),
        (None, None) => technical_key(event, namespace),
    }
}

/// Whether a metadata field holds a text that is not blank.
pub open spec fn nonblank_field(event: StoredLogEvent, key: Seq<char>) -> Option<Seq<char>> {
    match event.text_field(key) {
        Some(value) => if trimmed(value).len() > 0 {
            Some(value)
        } else {
            None
        },
        None => None,
    }
}

pub open spec fn namespace(event: StoredLogEvent) -> Seq<char> {
    match nonblank_field(event, "repo"@) {
        Some(repo) => "repo:"@ + stable_id(repo),
        None => "source:"@ + stable_id(event.source@),
    }
}

pub open spec fn technical_key(event: StoredLogEvent, namespace: Seq<char>) -> Seq<char> {
    match (nonblank_field(event, "task_id"@), nonblank_field(event, "session_id"@)) {
        (Some(task), _) => namespace + "|task:"@ + stable_id(task),
        (None, Some(session)) => namespace + "|session:"@ + stable_id(session),
        (None, None) => "event:"@ + stable_id(event.id@),
    }
}

fn nonblank_text<'a>(event: &'a StoredLogEvent, key: &str) -> (r: Option<&'a str>)
    ensures
        match r {
            Some(s) => nonblank_field(*event, key@) == Some(s@),
            None => nonblank_field(*event, key@) is None,
        },
{
    match event.get_text(key) {
        Some(value) => {
            if trim(value).as_str().is_empty() {
                None
            } else {
                Some(value)
            }
        },
        None => None,
    }
}

pub fn event_group_key(event: &StoredLogEvent) -> (r: String)
    ensures
        r@ == group_key(*event),
{
    let mut key: String = match nonblank_text(event, "repo") {
        Some(repo) => {
            let mut namespace = "repo:".to_owned();
            namespace.push_str(stable_identity(repo).as_str());
            namespace
        },
        None => {
            let mut namespace = "source:".to_owned();
            namespace.push_str(stable_identity(event.source.as_str()).as_str());
            namespace
        },
    };
    if let Some(work_item) = event.get_text("work_item") {
        key.push_str("|work-item:");
        key.push_str(normalized_reference_value(work_item, "ado").as_str());
        return key;
    }
    if let Some(pull_request) = event.get_text("pull_request") {
        key.push_str("|pull-request:");
        key.push_str(normalized_reference_value(pull_request, "pr").as_str());
        return key;
    }
    technical_event_group_key(event, key)
}

fn technical_event_group_key(event: &StoredLogEvent, namespace: String) -> (r: String)
    ensures
        r@ == technical_key(*event, namespace@),
{
    let mut key = namespace;
    if let Some(task) = nonblank_text(event, "task_id") {
        key.push_str("|task:");
        key.push_str(stable_identity(task).as_str());
        return key;
    }
    if let Some(session) = nonblank_text(event, "session_id") {
        key.push_str("|session:");
        key.push_str(stable_identity(session).as_str());
        return key;
    }
    let mut alone = "event:".to_owned();
    alone.push_str(stable_identity(event.id.as_str()).as_str());
    alone
}

} // verus!
