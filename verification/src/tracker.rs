//! The request by which a tracker is asked for peers.

use crate::error::TorrentError;
use crate::text::{decimal, decimal_string};
use crate::torrentfile::TorrentFile;
use std::borrow::Cow;
use url::Url;
use vstd::prelude::*;
use vstd::string::*;
use vstd::utf8::encode_utf8;

verus! {

/// Seconds that the tracker may take to answer.
pub const TRACKER_TIMEOUT: u64 = 15;

/// The most bytes that a URL, a name or a value may have when a pair is added
/// to a query. The URL crate keeps positions within a URL in 32 bits and
/// gives up beyond them; under this bound no text that it writes comes near
/// them. A tracker request is a few hundred bytes long.
pub const MAX_URL_LENGTH: usize = 0x10_0000;

/// The text of the URL that `url` is read as, after the pair of `name` and
/// `value` has been added at the end of its query, both written as
/// `application/x-www-form-urlencoded` has it. `None` where `url` cannot be
/// read as a URL.
pub uninterp spec fn url_with_pair(url: Seq<char>, name: Seq<char>, value: Seq<u8>) -> Option<Seq<char>>;

/// The bytes that are written into the query for `input`: those of
/// `value` for the placeholder `!`, else those of `input` itself.
fn query_bytes(input: &[u8], value: &[u8]) -> (bytes: Vec<u8>)
    ensures
        bytes@ == if input@ == seq![33u8] {
            value@
        } else {
            input@
        },
{
    if input.len() == 1 && input[0] == 33 {
        assert(input@ =~= seq![33u8]);
        vstd::slice::slice_to_vec(value)
    } else {
        vstd::slice::slice_to_vec(input)
    }
}

/// `url::Url::parse` on `url`, then `Url::query_pairs_mut` with
/// `Serializer::encoding_override` and `Serializer::append_pair`, then the
/// URL's text: the pair of `name` and the bytes `value` is added to the query
/// of the URL. The value is handed over as the placeholder `!`, for which
/// the override puts the bytes of `value`; a name that is itself `!` is left
/// out. The URL crate keeps positions in 32 bits and gives up beyond them, so
/// long arguments are left out too. `None` where `url` does not parse.
#[verifier::external_body]
fn append_pair(url: &str, name: &str, value: &[u8]) -> (r: Option<String>)
    requires
        encode_utf8(url@).len() <= MAX_URL_LENGTH,
        encode_utf8(name@).len() <= MAX_URL_LENGTH,
        value@.len() <= MAX_URL_LENGTH,
        name@ != "!"@,
    ensures
        match r {
            Some(text) => url_with_pair(url@, name@, value@) == Some(text@),
            None => url_with_pair(url@, name@, value@) is None,
        },
{
    let mut parsed = Url::parse(url).ok()?;
    parsed
        .query_pairs_mut()
        .encoding_override(Some(&|input: &str| Cow::Owned(query_bytes(input.as_bytes(), value))))
        .append_pair(name, "!");
    Some(parsed.into())
}

/// The URL `url` with one more pair in its query. A URL that cannot be read,
/// and a URL, name or value of more than `MAX_URL_LENGTH` bytes, is an
/// error; so is an error that `url` already is.
pub open spec fn with_pair(url: Result<Seq<char>, TorrentError>, name: Seq<char>, value: Seq<u8>)
    -> Result<Seq<char>, TorrentError> {
    match url {
        Ok(text) => if encode_utf8(text).len() > MAX_URL_LENGTH || encode_utf8(name).len()
            > MAX_URL_LENGTH || value.len() > MAX_URL_LENGTH {
            Err(TorrentError::InvalidTrackerUrl)
        } else {
            match url_with_pair(text, name, value) {
                Some(next) => Ok(next),
                None => Err(TorrentError::InvalidTrackerUrl),
            }
        },
        Err(e) => Err(e),
    }
}

/// The URL of the tracker request: the announce URL with, in this order,
/// `compact=1`, `downloaded=0`, the info hash, the bytes that are left to
/// download, the peer id, the port and `uploaded=0` added to its query.
pub open spec fn tracker_url(
    announce: Seq<char>,
    info_hash: Seq<u8>,
    peer_id: Seq<u8>,
    port: u16,
    left: u32,
) -> Result<Seq<char>, TorrentError> {
    let url = Ok::<Seq<char>, TorrentError>(announce);
    let url = with_pair(url, "compact"@, encode_utf8("1"@));
    let url = with_pair(url, "downloaded"@, encode_utf8("0"@));
    let url = with_pair(url, "info_hash"@, info_hash);
    let url = with_pair(url, "left"@, encode_utf8(decimal(left as nat)));
    let url = with_pair(url, "peer_id"@, peer_id);
    let url = with_pair(url, "port"@, encode_utf8(decimal(port as nat)));
    with_pair(url, "uploaded"@, encode_utf8("0"@))
}

/// The URL to go on with once a pair has been added to a query, or the error
/// where the URL could not be read.
pub fn url_or_error(appended: Option<String>) -> (r: Result<String, TorrentError>)
    ensures
        match appended {
            Some(text) => r == Ok::<String, TorrentError>(text),
            None => r == Err::<String, TorrentError>(TorrentError::InvalidTrackerUrl),
        },
{
    match appended {
        Some(next) => Ok(next),
        None => Err(TorrentError::InvalidTrackerUrl),
    }
}

/// The URL `url` with the pair of `name` and `value` added to its query.
fn add_pair(url: &str, name: &str, value: &[u8]) -> (r: Result<String, TorrentError>)
    requires
        name@ != "!"@,
    ensures
        match r {
            Ok(next) => with_pair(Ok(url@), name@, value@) == Ok::<Seq<char>, TorrentError>(next@),
            Err(e) => with_pair(Ok(url@), name@, value@) == Err::<Seq<char>, TorrentError>(e),
        },
{
    if url.as_bytes().len() > MAX_URL_LENGTH || name.as_bytes().len() > MAX_URL_LENGTH
        || value.len() > MAX_URL_LENGTH {
        return Err(TorrentError::InvalidTrackerUrl);
    }
    url_or_error(append_pair(url, name, value))
}

impl TorrentFile {
    /// The URL under which the tracker is asked for peers, for a download
    /// that has not begun yet: nothing is downloaded or uploaded, the whole
    /// length is left, and the peer list is asked for in its compact form.
    pub fn build_tracker_url(&mut self, peerid: Vec<u8>, port: u16) -> (r: Result<
        String,
        TorrentError,
    >)
        ensures
            *final(self) == *old(self),
            match r {
                Ok(url) => tracker_url(
                    old(self).Announce@,
                    old(self).InfoHash@,
                    peerid@,
                    port,
                    old(self).Length,
                ) == Ok::<Seq<char>, TorrentError>(url@),
                Err(e) => tracker_url(
                    old(self).Announce@,
                    old(self).InfoHash@,
                    peerid@,
                    port,
                    old(self).Length,
                ) == Err::<Seq<char>, TorrentError>(e),
            },
    {
        proof {
            reveal_strlit("!");
            reveal_strlit("compact");
            reveal_strlit("downloaded");
            reveal_strlit("info_hash");
            reveal_strlit("left");
            reveal_strlit("peer_id");
            reveal_strlit("port");
            reveal_strlit("uploaded");
        }
        let left: String = decimal_string(self.Length as u64);
        let port_text: String = decimal_string(port as u64);
        let url: String = add_pair(self.Announce.as_str(), "compact", "1".as_bytes())?;
        let url: String = add_pair(url.as_str(), "downloaded", "0".as_bytes())?;
        let url: String = add_pair(url.as_str(), "info_hash", self.InfoHash.as_slice())?;
        let url: String = add_pair(url.as_str(), "left", left.as_str().as_bytes())?;
        let url: String = add_pair(url.as_str(), "peer_id", peerid.as_slice())?;
        let url: String = add_pair(url.as_str(), "port", port_text.as_str().as_bytes())?;
        add_pair(url.as_str(), "uploaded", "0".as_bytes())
    }
}

} // verus!
