use vstd::prelude::*;
use vstd::string::{StringExecFns, StringSliceAdditionalSpecFns};
use vstd::utf8::encode_utf8;

use crate::google_drive::text_of;

verus! {

/// How many braces stand open after all of `plain` has been read: each `{`
/// counts one up and each `}` one down. The count may go below zero.
pub open spec fn curly_depth(plain: Seq<char>) -> int
    decreases plain.len(),
{
    if plain.len() == 0 {
        0
    } else {
        curly_depth(plain.drop_last()) + (if plain.last() == '{' {
            1int
        } else {
            0int
        }) - (if plain.last() == '}' {
            1int
        } else {
            0int
        })
    }
}

/// Whether the last character of a non-empty `plain` stands inside braces:
/// an opening brace counts as inside, and so does the brace that closes
/// the outermost pair.
pub open spec fn last_is_enclosed(plain: Seq<char>) -> bool {
    curly_depth(plain.drop_last()) + (if plain.last() == '{' {
        1int
    } else {
        0int
    }) >= 1
}

/// The characters of `plain` that stand inside braces, in order.
pub open spec fn json_part(plain: Seq<char>) -> Seq<char>
    decreases plain.len(),
{
    if plain.len() == 0 {
        Seq::empty()
    } else if last_is_enclosed(plain) {
        json_part(plain.drop_last()).push(plain.last())
    } else {
        json_part(plain.drop_last())
    }
}

/// `String::push` of std: the character is appended and nothing else changes.
#[verifier::external_body]
fn push_char(text: &mut String, ch: char)
    ensures
        final(text)@ == old(text)@.push(ch),
{
    text.push(ch);
}

/// Cuts the JSON document out of a batch response: keeps every character
/// that stands inside braces and drops the framing around them.
pub fn get_json_part(plain: String) -> (json: String)
    ensures
        json@ == json_part(plain@),
{
    let mut json = String::new();
    let mut curly_layers: i128 = 0;
    let total: usize = plain.as_str().unicode_len();
    for ch in it: plain.as_str().chars()
        invariant
            it.seq() == plain@,
            total == plain@.len(),
            curly_layers == curly_depth(plain@.take(it.index())),
            -it.index() <= curly_layers <= it.index(),
            json@ == json_part(plain@.take(it.index())),
    {
        proof {
            let before = plain@.take(it.index());
            let now = plain@.take(it.index() + 1);
            assert(now.drop_last() =~= before);
            assert(now.last() == ch);
        }
        if ch == '{' {
            curly_layers += 1;
        }
        if curly_layers >= 1 {
            push_char(&mut json, ch);
        }
        if ch == '}' {
            curly_layers -= 1;
        }
    }
    proof {
        assert(plain@.take(plain@.len() as int) =~= plain@);
    }
    json
}

/// The browser the requests claim to come from.
pub const USER_AGENT: &'static str =
    "Mozilla/5.0 (X11; Linux x86_64) AppleWebKit/537.36 (KHTML, like Gecko) Chrome/123.0.0.0 Safari/537.36";

/// The origin the requests claim to come from.
pub const ORIGIN: &'static str = "https://drive.google.com";

/// Where a shared folder's page is found, before the identifier.
pub const FOLDER_URL: &'static str = "https://drive.google.com/drive/folders/";

/// Where a file's content is found, before the identifier.
pub const FILE_URL: &'static str = "https://drive.usercontent.google.com/download?id=";

/// What follows the identifier in the address of a file's content.
pub const FILE_URL_TAIL: &'static str = "&export=download&confirm=t";

/// Where batch requests go, up to the query.
pub const BATCH_URL: &'static str = "https://clients6.google.com/batch/drive/v2beta?";

/// The name of the query parameter that carries the content type.
pub const CONTENT_TYPE_KEY: &'static str = "$ct";

/// The content type of a batch request.
pub const CONTENT_TYPE: &'static str = "multipart/mixed; boundary=\"=====vc17a3rwnndj=====\"";

/// A batch request's body up to the identifier of the listed folder.
pub const BODY_HEAD: &'static str =
    "--=====vc17a3rwnndj=====\ncontent-type: application/http\ncontent-transfer-encoding: binary\n\nGET /drive/v2beta/files?q=trashed%20%3D%20false%20and%20'";

/// A batch request's body between the identifier and the key.
pub const BODY_MIDDLE: &'static str = "'%20in%20parents&key=";

/// A batch request's body after the key.
pub const BODY_TAIL: &'static str = " HTTP/1.1\n\n--=====vc17a3rwnndj=====--";

/// Finds the access key in a folder's page: the second run of 39 letters
/// and digits after the page's initial data.
pub const KEY_PATTERN: &'static str = "(?:__initData.*?)(?:[a-zA-Z0-9]{39}.*?)([a-zA-Z0-9]{39})";

/// The shape of a folder identifier: 33 letters, digits, hyphens or underscores in a row.
pub const ID_PATTERN: &'static str = "[[a-zA-Z0-9]-_]{33}";

/// What an identifier must not hold: a whole address was given in its place.
pub const ID_FORBIDDEN: &'static str = "http";

/// Bytes that stand for themselves in a query: letters, digits, `-`, `.`, `_` and `~`.
pub open spec fn is_unreserved(b: u8) -> bool {
    ||| 48 <= b <= 57
    ||| 65 <= b <= 90
    ||| 97 <= b <= 122
    ||| b == 45
    ||| b == 46
    ||| b == 95
    ||| b == 126
}

/// The upper-case hexadecimal digit for `nibble`.
pub open spec fn upper_hex_digit(nibble: int) -> char {
    if nibble < 10 {
        ((48 + nibble) as u8) as char
    } else {
        ((55 + nibble) as u8) as char
    }
}

/// One byte in a query: itself where it is unreserved, else a percent sign
/// and its two hexadecimal digits.
pub open spec fn percent_encoded_byte(b: u8) -> Seq<char> {
    if is_unreserved(b) {
        seq![b as char]
    } else {
        seq!['%', upper_hex_digit(b as int / 16), upper_hex_digit(b as int % 16)]
    }
}

/// A run of bytes in a query, byte by byte.
pub open spec fn percent_encoded(bytes: Seq<u8>) -> Seq<char>
    decreases bytes.len(),
{
    if bytes.len() == 0 {
        Seq::empty()
    } else {
        percent_encoded(bytes.drop_last()) + percent_encoded_byte(bytes.last())
    }
}

/// `urlencoding::encode`, made into an owned string: every byte of the
/// text's UTF-8 form stands for itself where it is unreserved and becomes a
/// percent sign with two upper-case hexadecimal digits where it is not.
#[verifier::external_body]
fn percent_encode(text: &str) -> (encoded: String)
    ensures
        encoded@ == percent_encoded(text.spec_bytes()),
{
    urlencoding::encode(text).into_owned()
}

/// What a regular expression captures in a text: the part of the first match
/// that belongs to the group of the given number. There is none where the
/// pattern does not compile, where nothing matches, and where the group took
/// no part in the match.
pub uninterp spec fn regex_capture(pattern: Seq<char>, text: Seq<char>, group: nat) -> Option<
    Seq<char>,
>;

/// Whether a regular expression matches anywhere in a text; nothing where
/// the pattern does not compile.
pub uninterp spec fn regex_match(pattern: Seq<char>, text: Seq<char>) -> Option<bool>;

/// `Regex::new`, `Regex::captures` and `Captures::get` of the regex crate,
/// with the matched text copied out. The contract only names the result.
#[verifier::external_body]
fn capture(pattern: &str, text: &str, group: usize) -> (found: Option<String>)
    ensures
        text_of(found) == regex_capture(pattern@, text@, group as nat),
{
    regex::Regex::new(pattern).ok().and_then(
        |re| re.captures(text).and_then(|caps| caps.get(group).map(|m| m.as_str().to_string())),
    )
}

/// `Regex::new` and `Regex::is_match` of the regex crate. The contract only
/// names the result.
#[verifier::external_body]
fn matches_pattern(pattern: &str, text: &str) -> (matched: Option<bool>)
    ensures
        matched == regex_match(pattern@, text@),
{
    regex::Regex::new(pattern).ok().map(|re| re.is_match(text))
}

/// Whether `needle` stands somewhere in `text`, character for character.
pub open spec fn occurs_in(needle: Seq<char>, text: Seq<char>) -> bool {
    exists|i: int|
        0 <= i <= text.len() - needle.len() && #[trigger] text.subrange(i, i + needle.len())
            == needle
}

/// `str::contains` of std with a string as the pattern: whether the pattern
/// is a part of the text.
#[verifier::external_body]
fn contains_text(text: &str, needle: &str) -> (found: bool)
    ensures
        found == occurs_in(needle@, text@),
{
    text.contains(needle)
}

/// The address of a shared folder's page.
pub open spec fn folder_url(id: Seq<char>) -> Seq<char> {
    FOLDER_URL@ + id
}

/// The address of a file's content.
pub open spec fn file_url(id: Seq<char>) -> Seq<char> {
    FILE_URL@ + id + FILE_URL_TAIL@
}

/// The address batch requests go to, with the content type in its query.
pub open spec fn batch_url() -> Seq<char> {
    BATCH_URL@ + percent_encoded(encode_utf8(CONTENT_TYPE_KEY@)) + seq!['='] + percent_encoded(
        encode_utf8(CONTENT_TYPE@),
    )
}

/// The body of the batch request that lists the children of `id`.
pub open spec fn batch_body(id: Seq<char>, key: Seq<char>) -> Seq<char> {
    BODY_HEAD@ + id + BODY_MIDDLE@ + key + BODY_TAIL@
}

/// The address of the page of the shared folder `id`.
pub fn folder_page_url(id: &str) -> (url: String)
    ensures
        url@ == folder_url(id@),
{
    let mut url = String::from_str(FOLDER_URL);
    url.append(id);
    url
}

/// The address of the content of the file `id`.
pub fn file_content_url(id: &str) -> (url: String)
    ensures
        url@ == file_url(id@),
{
    let mut url = String::from_str(FILE_URL);
    url.append(id);
    url.append(FILE_URL_TAIL);
    url
}

/// A request that is ready to be posted.
#[derive(Debug)]
pub struct Post {
    pub url: String,
    pub body: String,
}

/// The batch request that lists the children of the folder `id`.
pub fn listing_request(id: &str, key: &str) -> (post: Post)
    ensures
        post.url@ == batch_url(),
        post.body@ == batch_body(id@, key@),
{
    let mut url = String::from_str(BATCH_URL);
    let name = percent_encode(CONTENT_TYPE_KEY);
    let value = percent_encode(CONTENT_TYPE);
    url.append(name.as_str());
    url.append("=");
    url.append(value.as_str());
    let mut body = String::from_str(BODY_HEAD);
    body.append(id);
    body.append(BODY_MIDDLE);
    body.append(key);
    body.append(BODY_TAIL);
    proof {
        reveal_strlit("=");
        assert("="@ =~= seq!['=']);
    }
    Post { url, body }
}

/// The access key that a folder's page holds, if it holds one.
pub fn extract_key(html: &str) -> (key: Option<String>)
    ensures
        text_of(key) == regex_capture(KEY_PATTERN@, html@, 1),
{
    capture(KEY_PATTERN, html, 1)
}

/// Whether an identifier is accepted, given what the two tests on it found:
/// it must have the shape of an identifier and hold no address.
pub open spec fn id_accepted(shape: Option<bool>, forbidden: bool) -> bool {
    shape == Some(true) && !forbidden
}

/// Decides on an identifier from what the two tests on it found.
pub fn accept_id(shape: Option<bool>, forbidden: bool) -> (accepted: bool)
    ensures
        accepted == id_accepted(shape, forbidden),
{
    match shape {
        Some(matched) => matched && !forbidden,
        None => false,
    }
}

/// Whether `id` can be the identifier of a shared folder.
pub fn valid_id(id: &str) -> (accepted: bool)
    ensures
        accepted == id_accepted(
            regex_match(ID_PATTERN@, id@),
            occurs_in(ID_FORBIDDEN@, id@),
        ),
{
    let shape = matches_pattern(ID_PATTERN, id);
    let forbidden = contains_text(id, ID_FORBIDDEN);
    accept_id(shape, forbidden)
}

} // verus!
