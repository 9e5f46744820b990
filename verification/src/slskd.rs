//! Search results and download requests exchanged with slskd.

use vstd::prelude::*;
use crate::text::copy_opt_string;

verus! {

/// One file offered by a Soulseek user, as slskd reports it.
#[derive(Debug)]
pub struct SlskdFile {
    pub filename: String,
    pub size: u64,
    pub extension: Option<String>,
}

/// All files one user offered for a search.
#[derive(Debug)]
pub struct SearchResponse {
    pub username: String,
    pub files: Vec<SlskdFile>,
}

/// One file to queue for download.
#[derive(Debug)]
pub struct DownloadFile {
    pub filename: String,
    pub size: u64,
}

/// A request to queue files from one user for download.
#[derive(Debug)]
pub struct DownloadRequest {
    pub username: String,
    pub files: Vec<DownloadFile>,
}

/// Why a download request could not be built.
#[derive(Debug, PartialEq, Eq, Structural)]
pub enum DownloadError {
    /// There were no files to download.
    NoFiles,
}

impl DownloadError {
    /// The error's text.
    pub fn message(&self) -> (r: &'static str)
        ensures
            r@ == "no files to download"@,
    {
        "no files to download"
    }
}

impl SlskdFile {
    /// A field-by-field copy.
    pub fn copy(&self) -> (r: SlskdFile)
        ensures
            r == *self,
    {
        SlskdFile {
            filename: self.filename.clone(),
            size: self.size,
            extension: copy_opt_string(&self.extension),
        }
    }
}

/// How many times a running search is polled before its responses are fetched anyway.
pub const SEARCH_POLL_LIMIT: u32 = 30;

/// After the `polls_done`-th status poll of a search, whether to poll again
/// (otherwise the responses are fetched now).
pub fn keep_polling_search(polls_done: u32, is_complete: bool) -> (r: bool)
    ensures
        r == (!is_complete && polls_done < SEARCH_POLL_LIMIT),
{
    !is_complete && polls_done < SEARCH_POLL_LIMIT
}

/// The download request for the given user's files: refused when there are no files,
/// otherwise each file's name and size in order.
pub fn download_request(username: &str, files: &Vec<SlskdFile>) -> (r: Result<
    DownloadRequest,
    DownloadError,
>)
    ensures
        files.len() == 0 <==> r is Err,
        r matches Ok(req) ==> {
            &&& req.username@ == username@
            &&& req.files.len() == files.len()
            &&& forall|i: int|
                0 <= i < files.len() ==> #[trigger] req.files[i].filename@ == files[i].filename@
                    && req.files[i].size == files[i].size
        },
{
    if files.len() == 0 {
        return Err(DownloadError::NoFiles);
    }
    let mut out: Vec<DownloadFile> = Vec::new();
    let mut i: usize = 0;
    while i < files.len()
        invariant
            i <= files.len(),
            out.len() == i,
            forall|k: int|
                0 <= k < i ==> #[trigger] out[k].filename@ == files[k].filename@ && out[k].size
                    == files[k].size,
        decreases files.len() - i,
    {
        out.push(DownloadFile { filename: files[i].filename.clone(), size: files[i].size });
        i = i + 1;
    }
    Ok(DownloadRequest { username: String::from_str(username), files: out })
}

/// A search is polled at most thirty times: polling goes on only while the
/// search is incomplete and fewer than thirty polls were made.
pub proof fn law_search_polls_at_most_thirty_times(polls_done: u32, is_complete: bool)
    ensures
        SEARCH_POLL_LIMIT == 30,
        polls_done >= 30 || is_complete ==> !(!is_complete && polls_done < SEARCH_POLL_LIMIT),
        polls_done < 30 && !is_complete ==> (!is_complete && polls_done < SEARCH_POLL_LIMIT),
{
}

} // verus!
