//! Wanted albums and the outcome of an import command, as Lidarr reports them.

use vstd::prelude::*;
use crate::text::{ascii_lower, is_ascii_seq, chars_of, contains_chars, contains_seq, lowercase, opt_chars, str_eq, to_lowercase, trim_trailing, trim_trailing_chars, string_from_chars};

verus! {

/// The artist of a wanted album.
#[derive(Debug)]
pub struct Artist {
    pub artist_name: String,
}

/// An album on Lidarr's wanted list.
#[derive(Debug)]
pub struct WantedAlbum {
    pub id: i64,
    pub title: String,
    pub artist: Artist,
}

/// What Lidarr made of an import.
#[derive(Debug)]
pub enum ImportResult {
    Accepted,
    /// Rejected, with Lidarr's message.
    Rejected(String),
}

/// A command with this status has finished.
pub open spec fn command_finished(status: Seq<char>) -> bool {
    status == "completed"@ || status == "failed"@
}

/// A finished command's message, with its lower-cased form, means a rejection:
/// Lidarr reports "completed" for rejections too, so the lower-cased message
/// decides; an empty message counts as a rejection.
pub open spec fn rejection_by_lowered(message: Seq<char>, lowered: Seq<char>) -> bool {
    ||| contains_seq(lowered, "failed"@)
    ||| contains_seq(lowered, "unable"@)
    ||| message.len() == 0
}

/// A finished command with this message was a rejection.
pub open spec fn rejection_message(message: Seq<char>) -> bool {
    rejection_by_lowered(message, lowercase(message))
}

/// The outcome of a finished import command, given its message and the message's
/// lower-cased form: a rejection carrying the message, or an acceptance.
pub fn classify_finished(message: String, message_lower: &str) -> (r: ImportResult)
    ensures
        rejection_by_lowered(message@, message_lower@) ==> (r matches ImportResult::Rejected(m)
            && m@ == message@),
        !rejection_by_lowered(message@, message_lower@) ==> r is Accepted,
{
    let lv = chars_of(message_lower);
    let failed = chars_of("failed");
    let unable = chars_of("unable");
    let mv = chars_of(message.as_str());
    if contains_chars(&lv, &failed) || contains_chars(&lv, &unable) || mv.len() == 0 {
        ImportResult::Rejected(message)
    } else {
        ImportResult::Accepted
    }
}

/// The outcome of an import command from one status poll: `None` while the
/// command is still running; once it finished, a rejection carrying the message
/// (the empty message when there is none) or an acceptance.
pub fn classify_command(status: &str, message: Option<String>) -> (r: Option<ImportResult>)
    ensures
        !command_finished(status@) ==> r is None,
        command_finished(status@) && rejection_message(opt_chars(message)) ==> (r matches Some(
            ImportResult::Rejected(m),
        ) && m@ == opt_chars(message)),
        command_finished(status@) && !rejection_message(opt_chars(message)) ==> (r matches Some(
            ImportResult::Accepted,
        )),
        command_finished(status@) && is_ascii_seq(opt_chars(message)) ==> lowercase(
            opt_chars(message),
        ) == ascii_lower(opt_chars(message)),
{
    if !(str_eq(status, "completed") || str_eq(status, "failed")) {
        return None;
    }
    let message = match message {
        Some(m) => m,
        None => String::new(),
    };
    let lower = to_lowercase(message.as_str());
    Some(classify_finished(message, lower.as_str()))
}

/// A base URL without its trailing slashes.
pub fn trim_base_url(base_url: &str) -> (r: String)
    ensures
        r@ == trim_trailing(base_url@, '/'),
{
    let v = chars_of(base_url);
    let t = trim_trailing_chars(&v, '/');
    string_from_chars(&t)
}

/// The URL of an API path under a base URL.
pub fn endpoint_url(base_url: &str, path: &str) -> (r: String)
    ensures
        r@ == base_url@ + path@,
{
    let mut s = String::from_str(base_url);
    s.append(path);
    s
}

/// A finished command is a rejection exactly when its lower-cased message holds
/// "failed" or "unable", or the message is empty; the statuses that finish a
/// command are "completed" and "failed".
pub proof fn law_rejection_words(message: Seq<char>, lowered: Seq<char>, status: Seq<char>)
    ensures
        rejection_by_lowered(message, lowered) <==> (contains_seq(lowered, "failed"@) || contains_seq(
            lowered,
            "unable"@,
        ) || message.len() == 0),
        command_finished(status) <==> (status == "completed"@ || status == "failed"@),
{
}

/// A trimmed base URL ends in no slash, and is the URL with only slashes removed
/// from its end.
pub proof fn law_trimmed_base_url(url: Seq<char>)
    ensures
        trim_trailing(url, '/').len() == 0 || trim_trailing(url, '/').last() != '/',
        trim_trailing(url, '/').len() <= url.len(),
        url.take(trim_trailing(url, '/').len() as int) == trim_trailing(url, '/'),
        forall|i: int| trim_trailing(url, '/').len() <= i < url.len() ==> url[i] == '/',
    decreases url.len(),
{
    if url.len() > 0 && url.last() == '/' {
        law_trimmed_base_url(url.drop_last());
        let t = trim_trailing(url, '/');
        assert(url.drop_last().take(t.len() as int) =~= url.take(t.len() as int));
        assert forall|i: int| t.len() <= i < url.len() implies url[i] == '/' by {
            if i < url.len() - 1 {
                assert(url.drop_last()[i] == url[i]);
            }
        }
    } else {
        assert(url.take(url.len() as int) =~= url);
    }
}

} // verus!
