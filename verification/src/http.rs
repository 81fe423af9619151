//! Decision logic of the transport client.
//!
//! The process that talks to the network hands the status code, the
//! announced length and the byte counts to these functions; every judgement
//! about them — which error a response maps to, when a download counts as
//! complete — is made here, under contract.

use vstd::prelude::*;

use crate::errors::BootstrapError;
use crate::text::string_of;
use crate::updater::UpdateState;

verus! {

/// A 2xx status code.
pub open spec fn spec_success_status(status: u16) -> bool {
    200 <= status < 300
}

/// The shared progress record the foreground thread polls while a download
/// runs on a worker.
pub struct UpdateDownloadProgress {
    pub state: UpdateState,
    pub total_bytes: u64,
    pub downloaded_bytes: u64,
    pub faulted: bool,
}

impl UpdateDownloadProgress {
    /// A fresh record: nothing announced, nothing downloaded, no fault.
    pub fn new() -> (r: UpdateDownloadProgress)
        ensures
            r.state == UpdateState::Idle,
            r.total_bytes == 0,
            r.downloaded_bytes == 0,
            !r.faulted,
    {
        UpdateDownloadProgress {
            state: UpdateState::Idle,
            total_bytes: 0,
            downloaded_bytes: 0,
            faulted: false,
        }
    }

    /// The download began: the announced total is recorded and the counter
    /// starts at zero.
    pub fn start(&mut self, total: u64)
        ensures
            final(self).state == UpdateState::Downloading,
            final(self).total_bytes == total,
            final(self).downloaded_bytes == 0,
            final(self).faulted == old(self).faulted,
    {
        self.state = UpdateState::Downloading;
        self.total_bytes = total;
        self.downloaded_bytes = 0;
    }

    /// One chunk of the body arrived.
    pub fn record_chunk(&mut self, n: u64)
        requires
            old(self).downloaded_bytes + n <= u64::MAX,
        ensures
            final(self).downloaded_bytes == old(self).downloaded_bytes + n,
            final(self).state == old(self).state,
            final(self).total_bytes == old(self).total_bytes,
            final(self).faulted == old(self).faulted,
    {
        self.downloaded_bytes = self.downloaded_bytes + n;
    }

    /// The worker hit a network or file fault.
    pub fn fault(&mut self)
        ensures
            final(self).faulted,
            final(self).state == old(self).state,
            final(self).total_bytes == old(self).total_bytes,
            final(self).downloaded_bytes == old(self).downloaded_bytes,
    {
        self.faulted = true;
    }

    /// Whether every announced byte has arrived.
    pub fn is_complete(&self) -> (r: bool)
        ensures
            r == (self.downloaded_bytes == self.total_bytes),
    {
        self.downloaded_bytes == self.total_bytes
    }
}

/// The decimal digit character for a value below ten.
pub open spec fn dec_char(n: int) -> char {
    if n == 0 {
        '0'
    } else if n == 1 {
        '1'
    } else if n == 2 {
        '2'
    } else if n == 3 {
        '3'
    } else if n == 4 {
        '4'
    } else if n == 5 {
        '5'
    } else if n == 6 {
        '6'
    } else if n == 7 {
        '7'
    } else if n == 8 {
        '8'
    } else {
        '9'
    }
}

/// A status code in decimal, most significant digit first.
pub open spec fn spec_dec(n: int) -> Seq<char> {
    if n < 10 {
        seq![dec_char(n)]
    } else if n < 100 {
        seq![dec_char(n / 10), dec_char(n % 10)]
    } else if n < 1000 {
        seq![dec_char(n / 100), dec_char((n / 10) % 10), dec_char(n % 10)]
    } else if n < 10000 {
        seq![dec_char(n / 1000), dec_char((n / 100) % 10), dec_char((n / 10) % 10), dec_char(
            n % 10,
        )]
    } else {
        seq![
            dec_char(n / 10000),
            dec_char((n / 1000) % 10),
            dec_char((n / 100) % 10),
            dec_char((n / 10) % 10),
            dec_char(n % 10),
        ]
    }
}

fn dec_char_of(n: u16) -> (r: char)
    requires
        n < 10,
    ensures
        r == dec_char(n as int),
{
    match n {
        0 => '0',
        1 => '1',
        2 => '2',
        3 => '3',
        4 => '4',
        5 => '5',
        6 => '6',
        7 => '7',
        8 => '8',
        _ => '9',
    }
}

/// The decimal digits of a status code.
fn dec_of(n: u16) -> (r: Vec<char>)
    ensures
        r@ == spec_dec(n as int),
{
    let mut v: Vec<char> = Vec::new();
    if n < 10 {
        v.push(dec_char_of(n));
    } else if n < 100 {
        v.push(dec_char_of(n / 10));
        v.push(dec_char_of(n % 10));
    } else if n < 1000 {
        v.push(dec_char_of(n / 100));
        v.push(dec_char_of((n / 10) % 10));
        v.push(dec_char_of(n % 10));
    } else if n < 10000 {
        v.push(dec_char_of(n / 1000));
        v.push(dec_char_of((n / 100) % 10));
        v.push(dec_char_of((n / 10) % 10));
        v.push(dec_char_of(n % 10));
    } else {
        v.push(dec_char_of(n / 10000));
        v.push(dec_char_of((n / 1000) % 10));
        v.push(dec_char_of((n / 100) % 10));
        v.push(dec_char_of((n / 10) % 10));
        v.push(dec_char_of(n % 10));
    }
    proof {
        assert(v@ =~= spec_dec(n as int));
    }
    v
}

/// The text reported when a fetch is refused: the status code and the URL
/// that could not be reached.
pub open spec fn spec_fetch_failure(status: u16, url: Seq<char>) -> Seq<char> {
    "[STATUS] "@ + spec_dec(status as int) + " could not reach "@ + url
}

/// Judges the GET that fetches a release index or a manifest: any non-2xx
/// status is an `HttpFailed` naming the status and the URL; a 2xx status
/// passes.
pub fn check_fetch_status(status: u16, url: &String) -> (r: Result<(), BootstrapError>)
    ensures
        spec_success_status(status) ==> r == Ok::<(), BootstrapError>(()),
        !spec_success_status(status) ==> (r matches Err(e) && e matches BootstrapError::HttpFailed(
            m,
        ) && m@ == spec_fetch_failure(status, url@)),
{
    if 200 <= status && status < 300 {
        Ok(())
    } else {
        let digits = dec_of(status);
        let digit_str = string_of(&digits);
        let mut m = ("[STATUS] ").to_owned();
        m.append(digit_str.as_str());
        m.append(" could not reach ");
        m.append(url.as_str());
        Err(BootstrapError::HttpFailed(m))
    }
}

/// Judges the HEAD response that precedes a download: a non-2xx status means
/// the remote file is missing, a zero or absent length means it is empty;
/// otherwise the announced length comes back.
pub fn check_remote_file(status: u16, content_length: Option<u64>, url: &String) -> (r: Result<
    u64,
    BootstrapError,
>)
    ensures
        !spec_success_status(status) ==> r == Err::<u64, BootstrapError>(
            BootstrapError::RemoteFileMissing(*url),
        ),
        spec_success_status(status) && (content_length is None || content_length == Some(0u64))
            ==> r == Err::<u64, BootstrapError>(BootstrapError::RemoteFileEmpty(*url)),
        spec_success_status(status) && (content_length matches Some(n) && n > 0) ==> r == Ok::<
            u64,
            BootstrapError,
        >(content_length.unwrap()),
{
    if !(200 <= status && status < 300) {
        return Err(BootstrapError::RemoteFileMissing(url.clone()));
    }
    match content_length {
        Some(n) if n > 0 => Ok(n),
        _ => Err(BootstrapError::RemoteFileEmpty(url.clone())),
    }
}

/// The outcome of a finished transfer, as the download routine reports it: a
/// fault is an error, a clean stream returns whether the byte count matches
/// the announced length.  A short read is a logical failure — `Ok(false)` —
/// not an error.
pub fn download_result(p: &UpdateDownloadProgress, url: &String) -> (r: Result<
    bool,
    BootstrapError,
>)
    ensures
        p.faulted ==> r == Err::<bool, BootstrapError>(BootstrapError::HttpFailed(*url)),
        !p.faulted ==> r == Ok::<bool, BootstrapError>(p.downloaded_bytes == p.total_bytes),
{
    if p.faulted {
        Err(BootstrapError::HttpFailed(url.clone()))
    } else {
        Ok(p.downloaded_bytes == p.total_bytes)
    }
}

} // verus!
