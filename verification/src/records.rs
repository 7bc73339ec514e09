use vstd::prelude::*;

use mongodb::bson::Document;

verus! {

/// The country with the most tweets and how many it has.
#[derive(Debug)]
pub struct CountryTweets {
    pub country: String,
    pub count: i64,
}

/// The user with the most tweets and how many they wrote.
#[derive(Debug)]
pub struct UserTweets {
    pub screen_name: String,
    pub count: i64,
}

/// A hashtag, lower-cased, and the number of tweets that carry it.
#[derive(Debug)]
pub struct HashtagCount {
    pub hashtag: String,
    pub count: i64,
}

/// One reply written by the watched account.
#[derive(Debug)]
pub struct Reply {
    pub text: String,
    pub time: String,
    pub id: i64,
    pub in_reply_to: i64,
    pub screen_name: String,
    pub user_name: String,
}

/// The fields of `doc` that hold a string, with their strings.
pub uninterp spec fn document_strings(doc: Document) -> Map<Seq<char>, Seq<char>>;

/// The fields of `doc` that hold a 64-bit integer, with their values.
pub uninterp spec fn document_longs(doc: Document) -> Map<Seq<char>, i64>;

/// Trusted: `Document::get_str(key)`, which bson answers with the string
/// when the field holds a string and with an error otherwise; the string is
/// copied out.
#[verifier::external_body]
fn field_string(doc: &Document, key: &str) -> (r: Option<String>)
    ensures
        r is Some <==> document_strings(*doc).contains_key(key@),
        r matches Some(s) ==> s@ == document_strings(*doc)[key@],
{
    doc.get_str(key).ok().map(|s| s.to_string())
}

/// Trusted: `Document::get_i64(key)`, which bson answers with the value when
/// the field holds a 64-bit integer and with an error otherwise.
#[verifier::external_body]
fn field_long(doc: &Document, key: &str) -> (r: Option<i64>)
    ensures
        r is Some <==> document_longs(*doc).contains_key(key@),
        r matches Some(v) ==> v == document_longs(*doc)[key@],
{
    doc.get_i64(key).ok()
}

/// Reads a string field and a 64-bit integer field of `doc`.
pub open spec fn fields_of(doc: Document, text_key: Seq<char>, count_key: Seq<char>) -> Option<(Seq<char>, i64)> {
    if document_strings(doc).contains_key(text_key) && document_longs(doc).contains_key(count_key) {
        Some((document_strings(doc)[text_key], document_longs(doc)[count_key]))
    } else {
        None
    }
}

impl CountryTweets {
    /// The country and count of a result row: its string field "country" and
    /// its 64-bit integer field "count", or nothing when either is missing or
    /// of another type.
    pub fn from_document(doc: &Document) -> (r: Option<CountryTweets>)
        ensures
            match fields_of(*doc, "country"@, "count"@) {
                Some((country, count)) => r matches Some(c) && c.country@ == country && c.count == count,
                None => r is None,
            },
    {
        let country = field_string(doc, "country");
        let count = field_long(doc, "count");
        match (country, count) {
            (Some(country), Some(count)) => Some(CountryTweets { country, count }),
            _ => None,
        }
    }
}

impl UserTweets {
    /// The screen name and count of a result row: its string field
    /// "screen_name" and its 64-bit integer field "count", or nothing when
    /// either is missing or of another type.
    pub fn from_document(doc: &Document) -> (r: Option<UserTweets>)
        ensures
            match fields_of(*doc, "screen_name"@, "count"@) {
                Some((screen_name, count)) => r matches Some(u) && u.screen_name@ == screen_name && u.count == count,
                None => r is None,
            },
    {
        let screen_name = field_string(doc, "screen_name");
        let count = field_long(doc, "count");
        match (screen_name, count) {
            (Some(screen_name), Some(count)) => Some(UserTweets { screen_name, count }),
            _ => None,
        }
    }
}

} // verus!
