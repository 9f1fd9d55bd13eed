//! Reading an account's profile from the page that embeds it.

use vstd::prelude::*;
use crate::entity::optional_text;
use crate::json::{count_at, json_count, json_document, json_string, parse_json, string_at};
use crate::scan::{embedded_json, embedded_json_of};
use crate::text::push_char;

verus! {

/// What a page says of an account.
#[derive(Debug, Clone, PartialEq, Eq)]
pub struct Profile {
    pub followers_count: u64,
    pub full_name: String,
    pub profile_pic_url: String,
    pub posts_count: u64,
}

/// A profile as plain values.
pub struct ProfileView {
    pub followers_count: u64,
    pub full_name: Seq<char>,
    pub profile_pic_url: Seq<char>,
    pub posts_count: u64,
}

impl View for Profile {
    type V = ProfileView;

    open spec fn view(&self) -> ProfileView {
        ProfileView {
            followers_count: self.followers_count,
            full_name: self.full_name@,
            profile_pic_url: self.profile_pic_url@,
            posts_count: self.posts_count,
        }
    }
}

/// Why a page gave no profile.
#[derive(Debug, Clone, Copy, PartialEq, Eq, Structural)]
pub enum ProfileError {
    /// The page embeds no JSON behind the marker.
    NoEmbeddedJson,
    /// The embedded text holds an escape sequence that cannot be read.
    BadEscape,
    /// The embedded text is not JSON.
    NotJson,
    /// `context.followers_count` is not available.
    NoFollowersCount,
    /// `context.full_name` is not available.
    NoFullName,
    /// `context.profile_pic_url` is not available.
    NoProfilePicUrl,
    /// `context.posts_count` is not available.
    NoPostsCount,
}

/// The fields of a profile as they were found in a document, each `None`
/// when it was missing or of another type.
#[derive(Debug, Clone, PartialEq, Eq)]
pub struct ProfileFields {
    pub followers_count: Option<u64>,
    pub full_name: Option<String>,
    pub profile_pic_url: Option<String>,
    pub posts_count: Option<u64>,
}

/// Profile fields as plain values.
pub struct ProfileFieldsView {
    pub followers_count: Option<u64>,
    pub full_name: Option<Seq<char>>,
    pub profile_pic_url: Option<Seq<char>>,
    pub posts_count: Option<u64>,
}

impl View for ProfileFields {
    type V = ProfileFieldsView;

    open spec fn view(&self) -> ProfileFieldsView {
        ProfileFieldsView {
            followers_count: self.followers_count,
            full_name: optional_text(self.full_name),
            profile_pic_url: optional_text(self.profile_pic_url),
            posts_count: self.posts_count,
        }
    }
}

/// What `unescaper::unescape` makes of a text with escape sequences; `None`
/// when it reports an error.
pub uninterp spec fn unescaped(text: Seq<char>) -> Option<Seq<char>>;

/// `unescaper::unescape`: the text with its escape sequences replaced by the
/// characters they stand for. The result depends on the text alone.
#[verifier::external_body]
fn unescape(text: &str) -> (plain: Option<String>)
    ensures
        optional_text(plain) == unescaped(text@),
{
    unescaper::unescape(text).ok()
}

/// The digest that `sha2::Sha256` computes of the bytes.
pub uninterp spec fn sha256_digest(data: Seq<u8>) -> Seq<u8>;

/// `sha2::Sha256::digest`, its result copied into a vector. The result
/// depends on the bytes alone.
#[verifier::external_body]
fn sha256(data: &Vec<u8>) -> (digest: Vec<u8>)
    ensures
        digest@ == sha256_digest(data@),
{
    <sha2::Sha256 as sha2::Digest>::digest(data).to_vec()
}

/// The fields that a JSON text holds under `context`; `None` when the text
/// is not JSON.
pub open spec fn profile_fields_of(json: Seq<char>) -> Option<ProfileFieldsView> {
    match json_document(json) {
        None => None,
        Some(document) => Some(
            ProfileFieldsView {
                followers_count: json_count(document, "/context/followers_count"@),
                full_name: json_string(document, "/context/full_name"@),
                profile_pic_url: json_string(document, "/context/profile_pic_url"@),
                posts_count: json_count(document, "/context/posts_count"@),
            },
        ),
    }
}

/// The profile that fields make, or the first field that is not available,
/// asked in the order followers, name, picture, posts.
pub open spec fn profile_of_fields(fields: ProfileFieldsView) -> Result<ProfileView, ProfileError> {
    match fields.followers_count {
        None => Err(ProfileError::NoFollowersCount),
        Some(followers_count) => match fields.full_name {
            None => Err(ProfileError::NoFullName),
            Some(full_name) => match fields.profile_pic_url {
                None => Err(ProfileError::NoProfilePicUrl),
                Some(profile_pic_url) => match fields.posts_count {
                    None => Err(ProfileError::NoPostsCount),
                    Some(posts_count) => Ok(
                        ProfileView { followers_count, full_name, profile_pic_url, posts_count },
                    ),
                },
            },
        },
    }
}

/// What a page says of its account: the embedded text is cut out, its escape
/// sequences are read, and the result is read as JSON.
pub open spec fn profile_of(document: Seq<char>) -> Result<ProfileView, ProfileError> {
    match embedded_json_of(document) {
        None => Err(ProfileError::NoEmbeddedJson),
        Some(escaped) => match unescaped(escaped) {
            None => Err(ProfileError::BadEscape),
            Some(json) => match profile_fields_of(json) {
                None => Err(ProfileError::NotJson),
                Some(fields) => profile_of_fields(fields),
            },
        },
    }
}

/// A profile, or the reason there is none, as plain values.
pub open spec fn profile_view(result: Result<Profile, ProfileError>) -> Result<
    ProfileView,
    ProfileError,
> {
    match result {
        Ok(profile) => Ok(profile@),
        Err(error) => Err(error),
    }
}

/// Takes the fields of a profile from a JSON text.
pub fn read_profile_fields(json: &str) -> (fields: Option<ProfileFields>)
    ensures
        match fields {
            Some(f) => profile_fields_of(json@) == Some(f@),
            None => profile_fields_of(json@) is None,
        },
{
    match parse_json(json) {
        None => None,
        Some(document) => Some(
            ProfileFields {
                followers_count: count_at(&document, "/context/followers_count"),
                full_name: string_at(&document, "/context/full_name"),
                profile_pic_url: string_at(&document, "/context/profile_pic_url"),
                posts_count: count_at(&document, "/context/posts_count"),
            },
        ),
    }
}

/// Makes a profile of the fields that were found, or names the first that is
/// not available.
pub fn profile_from_fields(fields: ProfileFields) -> (result: Result<Profile, ProfileError>)
    ensures
        profile_view(result) == profile_of_fields(fields@),
{
    let ProfileFields { followers_count, full_name, profile_pic_url, posts_count } = fields;
    let followers_count = match followers_count {
        Some(count) => count,
        None => {
            return Err(ProfileError::NoFollowersCount);
        },
    };
    let full_name = match full_name {
        Some(name) => name,
        None => {
            return Err(ProfileError::NoFullName);
        },
    };
    let profile_pic_url = match profile_pic_url {
        Some(url) => url,
        None => {
            return Err(ProfileError::NoProfilePicUrl);
        },
    };
    match posts_count {
        Some(posts_count) => Ok(
            Profile { followers_count, full_name, profile_pic_url, posts_count },
        ),
        None => Err(ProfileError::NoPostsCount),
    }
}

/// Reads an account's profile from its page.
pub fn read_profile(document: &str) -> (result: Result<Profile, ProfileError>)
    ensures
        profile_view(result) == profile_of(document@),
{
    let escaped = match embedded_json(document) {
        Some(escaped) => escaped,
        None => {
            return Err(ProfileError::NoEmbeddedJson);
        },
    };
    let json = match unescape(escaped.as_str()) {
        Some(json) => json,
        None => {
            return Err(ProfileError::BadEscape);
        },
    };
    match read_profile_fields(json.as_str()) {
        Some(fields) => profile_from_fields(fields),
        None => Err(ProfileError::NotJson),
    }
}

/// The hexadecimal digit of a number below sixteen, in lower case.
pub open spec fn hex_digit(n: int) -> char {
    if n == 0 {
        '0'
    } else if n == 1 {
        '1'
    } else if n == 2 {
        '2'
    } else if n == 3 {
        '3'
    } else if n == 4 {
        '4'
    } else if n == 5 {
        '5'
    } else if n == 6 {
        '6'
    } else if n == 7 {
        '7'
    } else if n == 8 {
        '8'
    } else if n == 9 {
        '9'
    } else if n == 10 {
        'a'
    } else if n == 11 {
        'b'
    } else if n == 12 {
        'c'
    } else if n == 13 {
        'd'
    } else if n == 14 {
        'e'
    } else {
        'f'
    }
}

/// The bytes written as two lower-case hexadecimal digits each.
pub open spec fn hex_of(bytes: Seq<u8>) -> Seq<char>
    decreases bytes.len(),
{
    if bytes.len() == 0 {
        Seq::empty()
    } else {
        hex_of(bytes.drop_last()).push(hex_digit(bytes.last() as int / 16)).push(
            hex_digit(bytes.last() as int % 16),
        )
    }
}

fn digit(n: u8) -> (c: char)
    requires
        n < 16,
    ensures
        c == hex_digit(n as int),
{
    if n == 0 {
        '0'
    } else if n == 1 {
        '1'
    } else if n == 2 {
        '2'
    } else if n == 3 {
        '3'
    } else if n == 4 {
        '4'
    } else if n == 5 {
        '5'
    } else if n == 6 {
        '6'
    } else if n == 7 {
        '7'
    } else if n == 8 {
        '8'
    } else if n == 9 {
        '9'
    } else if n == 10 {
        'a'
    } else if n == 11 {
        'b'
    } else if n == 12 {
        'c'
    } else if n == 13 {
        'd'
    } else if n == 14 {
        'e'
    } else {
        'f'
    }
}

/// The bytes written as two lower-case hexadecimal digits each.
pub fn hex(bytes: &Vec<u8>) -> (out: String)
    ensures
        out@ == hex_of(bytes@),
{
    let mut out = String::new();
    let mut i: usize = 0;
    while i < bytes.len()
        invariant
            i <= bytes.len(),
            out@ == hex_of(bytes@.take(i as int)),
        decreases bytes.len() - i,
    {
        let ghost next = bytes@.take(i + 1);
        assert(next.drop_last() =~= bytes@.take(i as int));
        assert(next.last() == bytes[i as int]);
        push_char(&mut out, digit(bytes[i] / 16));
        push_char(&mut out, digit(bytes[i] % 16));
        i = i + 1;
    }
    assert(bytes@.take(bytes.len() as int) =~= bytes@);
    out
}

/// The name under which a picture is kept: its SHA-256 digest in hexadecimal.
pub fn picture_hash(picture: &Vec<u8>) -> (hash: String)
    ensures
        hash@ == hex_of(sha256_digest(picture@)),
{
    hex(&sha256(picture))
}

} // verus!
