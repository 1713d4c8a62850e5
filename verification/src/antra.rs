//! The decisions of an Antra download: when a job is done or failed, which file a finished
//! job delivers, whether it fits the album's type, and whether an unpacked archive has the
//! shape of one flat album directory.
use vstd::prelude::*;

use crate::jellyfin::{eq_ignore_ascii_case, same_key};
use crate::text::{ascii_lower, chars_of, str_equal, to_ascii_lower_char};
use vstd::string::StringExecFns;

verus! {

/// Why an Antra download failed.
#[derive(Debug, Clone, PartialEq, Eq)]
pub enum AntraError {
    Reqwest(String),
    CantResolve,
    CantCreateJob,
    CantGetStatus,
    IoError(String),
    DownloadFailed,
    UnexpectedDownloadType,
    JobFailed(String),
    JobTimedOut,
    UnzipFailed,
    EmptyArchive,
    NoAlbumDirectory,
    UnexpectedArchiveShape,
}

impl AntraError {
    /// The error's description.
    pub fn message(&self) -> (r: String)
        ensures
            r@ == match self {
                AntraError::Reqwest(e) => "Error sending request: "@ + e@,
                AntraError::CantResolve => "Could not resolve the album URL"@,
                AntraError::CantCreateJob => "Failed to create the Antra job"@,
                AntraError::CantGetStatus => "Failed to receive job status"@,
                AntraError::IoError(e) => "I/O Error: "@ + e@,
                AntraError::DownloadFailed => "Failed to download job"@,
                AntraError::UnexpectedDownloadType =>
                    "Antra returned a file type that does not match the album type"@,
                AntraError::JobFailed(s) => "Antra job failed with status: "@ + s@,
                AntraError::JobTimedOut => "Antra job did not finish within 10 minutes"@,
                AntraError::UnzipFailed => "Could not unzip the downloaded archive"@,
                AntraError::EmptyArchive => "The downloaded archive contains no files"@,
                AntraError::NoAlbumDirectory =>
                    "The downloaded archive has no album directory: a folder above the tracks holds only files"@,
                AntraError::UnexpectedArchiveShape =>
                    "The downloaded archive does not have the expected shape of one flat album directory"@,
            },
    {
        match self {
            AntraError::Reqwest(e) => {
                let mut m = "Error sending request: ".to_owned();
                m.append(e.as_str());
                m
            },
            AntraError::CantResolve => "Could not resolve the album URL".to_owned(),
            AntraError::CantCreateJob => "Failed to create the Antra job".to_owned(),
            AntraError::CantGetStatus => "Failed to receive job status".to_owned(),
            AntraError::IoError(e) => {
                let mut m = "I/O Error: ".to_owned();
                m.append(e.as_str());
                m
            },
            AntraError::DownloadFailed => "Failed to download job".to_owned(),
            AntraError::UnexpectedDownloadType =>
                "Antra returned a file type that does not match the album type".to_owned(),
            AntraError::JobFailed(s) => {
                let mut m = "Antra job failed with status: ".to_owned();
                m.append(s.as_str());
                m
            },
            AntraError::JobTimedOut => "Antra job did not finish within 10 minutes".to_owned(),
            AntraError::UnzipFailed => "Could not unzip the downloaded archive".to_owned(),
            AntraError::EmptyArchive => "The downloaded archive contains no files".to_owned(),
            AntraError::NoAlbumDirectory =>
                "The downloaded archive has no album directory: a folder above the tracks holds only files".to_owned(),
            AntraError::UnexpectedArchiveShape =>
                "The downloaded archive does not have the expected shape of one flat album directory".to_owned(),
        }
    }
}

/// The Tidal page of an album, which Antra resolves.
pub fn tidal_album_url(album_id: &str) -> (r: String)
    ensures
        r@ == "https://tidal.com/browse/album/"@ + album_id@,
{
    let mut url = "https://tidal.com/browse/album/".to_owned();
    url.append(album_id);
    url
}

/// What one poll of a job's status says.
#[derive(Debug, Clone, PartialEq, Eq)]
pub enum JobPoll {
    Complete,
    Pending,
}

/// A status names a failure when, lowercased, it is `failed`, `error`, `cancelled` or
/// `canceled`.
pub open spec fn is_failure_status(status: Seq<char>) -> bool {
    let l = ascii_lower(status);
    l == "failed"@ || l == "error"@ || l == "cancelled"@ || l == "canceled"@
}

/// Reads a job status: exactly `complete` ends the wait; a failure status fails the job
/// with that status; anything else means polling goes on.
pub fn job_poll(status: String) -> (r: Result<JobPoll, AntraError>)
    ensures
        status@ == "complete"@ ==> r == Ok::<JobPoll, AntraError>(JobPoll::Complete),
        status@ != "complete"@ && is_failure_status(status@) ==> r == Err::<JobPoll, AntraError>(
            AntraError::JobFailed(status),
        ),
        status@ != "complete"@ && !is_failure_status(status@) ==> r == Ok::<JobPoll, AntraError>(
            JobPoll::Pending,
        ),
{
    if str_equal(status.as_str(), "complete") {
        return Ok(JobPoll::Complete);
    }
    let lowered = lowercase_ascii(status.as_str());
    if str_equal(lowered.as_str(), "failed") || str_equal(lowered.as_str(), "error") || str_equal(
        lowered.as_str(),
        "cancelled",
    ) || str_equal(lowered.as_str(), "canceled") {
        return Err(AntraError::JobFailed(status));
    }
    Ok(JobPoll::Pending)
}

/// `str::to_ascii_lowercase`.
pub fn lowercase_ascii(s: &str) -> (r: String)
    ensures
        r@ == ascii_lower(s@),
{
    let chars = chars_of(s);
    let mut out = String::new();
    let mut i: usize = 0;
    while i < chars.len()
        invariant
            i <= chars@.len(),
            chars@ == s@,
            out@ == ascii_lower(s@).take(i as int),
        decreases chars.len() - i,
    {
        crate::text::push_char(&mut out, to_ascii_lower_char(chars[i]));
        assert(ascii_lower(s@).take(i + 1) =~= ascii_lower(s@).take(i as int).push(
            ascii_lower(s@)[i as int],
        ));
        i = i + 1;
    }
    assert(ascii_lower(s@).take(chars@.len() as int) =~= ascii_lower(s@));
    out
}

/// The `filename` parameter of a Content-Disposition header, as `content_disposition`
/// parses it.
pub uninterp spec fn disposition_filename(header: Seq<char>) -> Option<Seq<char>>;

pub open spec fn opt_text(o: Option<String>) -> Option<Seq<char>> {
    match o {
        Some(s) => Some(s@),
        None => None,
    }
}

/// `content_disposition::parse_content_disposition(header).filename_full()`: the value of
/// the header's `filename` parameter after the crate's decoding, a function of the header
/// alone.
#[verifier::external_body]
fn content_disposition_filename(header: &str) -> (r: Option<String>)
    ensures
        opt_text(r) == disposition_filename(header@),
{
    content_disposition::parse_content_disposition(header).filename_full()
}

/// The file a finished job delivers, from its filename parameter: without a readable
/// header the download failed, and without a filename its type is unexpected.
pub fn filename_from_parameter(header_present: bool, filename: Option<String>) -> (r: Result<
    String,
    AntraError,
>)
    ensures
        !header_present ==> r == Err::<String, AntraError>(AntraError::DownloadFailed),
        header_present && filename is None ==> r == Err::<String, AntraError>(
            AntraError::UnexpectedDownloadType,
        ),
        header_present && filename is Some ==> r == Ok::<String, AntraError>(filename.unwrap()),
{
    if !header_present {
        return Err(AntraError::DownloadFailed);
    }
    match filename {
        Some(f) => Ok(f),
        None => Err(AntraError::UnexpectedDownloadType),
    }
}

/// The file a finished job delivers, named by its Content-Disposition header; `None`
/// stands for a header that is missing or not visible ASCII.
pub fn download_filename(header: Option<&str>) -> (r: Result<String, AntraError>)
    ensures
        match header {
            None => r == Err::<String, AntraError>(AntraError::DownloadFailed),
            Some(h) => match disposition_filename(h@) {
                None => r == Err::<String, AntraError>(AntraError::UnexpectedDownloadType),
                Some(f) => r matches Ok(name) && name@ == f,
            },
        },
{
    match header {
        None => filename_from_parameter(false, None),
        Some(h) => filename_from_parameter(true, content_disposition_filename(h)),
    }
}

/// How a finished download is placed.
#[derive(Debug, Clone, Copy, PartialEq, Eq, Structural)]
pub enum Delivery {
    /// A single track, moved into the destination.
    SingleFile,
    /// A zip archive of the album, unpacked into the destination.
    Archive,
}

/// A single must arrive as a FLAC file and an album or EP as a zip archive (types and
/// extensions compared ignoring ASCII case); any other type, or a mismatch, is refused.
pub fn delivery_for(album_type: Option<&str>, extension: Option<&str>) -> (r: Result<
    Delivery,
    AntraError,
>)
    ensures
        ({
            let single = album_type matches Some(t) && same_key(t@, "SINGLE"@);
            let album_or_ep = album_type matches Some(t) && (same_key(t@, "ALBUM"@) || same_key(
                t@,
                "EP"@,
            ));
            let flac = extension matches Some(e) && same_key(e@, "flac"@);
            let zip = extension matches Some(e) && same_key(e@, "zip"@);
            if (!single && !album_or_ep) || (single && !flac) || (album_or_ep && !zip) {
                r == Err::<Delivery, AntraError>(AntraError::UnexpectedDownloadType)
            } else if single {
                r == Ok::<Delivery, AntraError>(Delivery::SingleFile)
            } else {
                r == Ok::<Delivery, AntraError>(Delivery::Archive)
            }
        }),
{
    let single = match album_type {
        Some(t) => eq_ignore_ascii_case(t, "SINGLE"),
        None => false,
    };
    let album_or_ep = match album_type {
        Some(t) => eq_ignore_ascii_case(t, "ALBUM") || eq_ignore_ascii_case(t, "EP"),
        None => false,
    };
    let flac = match extension {
        Some(e) => eq_ignore_ascii_case(e, "flac"),
        None => false,
    };
    let zip = match extension {
        Some(e) => eq_ignore_ascii_case(e, "zip"),
        None => false,
    };
    if (!single && !album_or_ep) || (single && !flac) || (album_or_ep && !zip) {
        return Err(AntraError::UnexpectedDownloadType);
    }
    if single {
        Ok(Delivery::SingleFile)
    } else {
        Ok(Delivery::Archive)
    }
}

/// What a directory of an unpacked archive holds: its one subdirectory, if it has one,
/// and whether it holds any file.
#[derive(Debug, Clone, PartialEq, Eq)]
pub struct DirectoryShape {
    pub subdirectory: Option<String>,
    pub holds_file: bool,
}

/// Reads a directory's entries, each a path and whether it is a directory: a second
/// subdirectory means the archive does not have the expected shape.
pub fn directory_shape(entries: &[(String, bool)]) -> (r: Result<DirectoryShape, AntraError>)
    ensures
        ({
            let dirs = entries@.filter(|e: (String, bool)| e.1);
            if dirs.len() > 1 {
                r == Err::<DirectoryShape, AntraError>(AntraError::UnexpectedArchiveShape)
            } else {
                r matches Ok(shape) && shape.holds_file == (exists|i: int|
                    0 <= i < entries@.len() && !(#[trigger] entries@[i]).1) && opt_text(
                    shape.subdirectory,
                ) == (if dirs.len() == 1 {
                    Some(dirs[0].0@)
                } else {
                    None
                })
            }
        }),
{
    let mut subdirectory: Option<String> = None;
    let mut holds_file = false;
    let mut i: usize = 0;
    while i < entries.len()
        invariant
            i <= entries@.len(),
            entries@.take(i as int).filter(|e: (String, bool)| e.1).len() <= 1,
            holds_file == (exists|j: int| 0 <= j < i && !(#[trigger] entries@[j]).1),
            opt_text(subdirectory) == (if entries@.take(i as int).filter(|e: (String, bool)| e.1).len()
                == 1 {
                Some(entries@.take(i as int).filter(|e: (String, bool)| e.1)[0].0@)
            } else {
                None
            }),
        decreases entries.len() - i,
    {
        proof {
            assert(entries@.take(i + 1) =~= entries@.take(i as int).push(entries@[i as int]));
            entries@.take(i as int).lemma_filter_push(entries@[i as int], |e: (String, bool)| e.1);
        }
        if entries[i].1 {
            if subdirectory.is_some() {
                proof {
                    lemma_filter_prefix_count(entries@, i + 1);
                }
                return Err(AntraError::UnexpectedArchiveShape);
            }
            subdirectory = Some(entries[i].0.clone());
        } else {
            holds_file = true;
        }
        i = i + 1;
    }
    assert(entries@.take(entries@.len() as int) =~= entries@);
    Ok(DirectoryShape { subdirectory, holds_file })
}

proof fn lemma_filter_prefix_count(s: Seq<(String, bool)>, k: int)
    requires
        0 <= k <= s.len(),
    ensures
        s.take(k).filter(|e: (String, bool)| e.1).len() <= s.filter(|e: (String, bool)| e.1).len(),
    decreases s.len() - k,
{
    if k < s.len() {
        lemma_filter_prefix_count(s, k + 1);
        assert(s.take(k + 1) =~= s.take(k).push(s[k]));
        s.take(k).lemma_filter_push(s[k], |e: (String, bool)| e.1);
    } else {
        assert(s.take(k) =~= s);
    }
}

/// The one subdirectory of a level above the album directory: a level that also holds
/// files has an unexpected shape, one with only files has no album directory, and an
/// empty one means the archive is empty.
pub fn single_subdirectory(shape: DirectoryShape) -> (r: Result<String, AntraError>)
    ensures
        match shape.subdirectory {
            Some(s) => if shape.holds_file {
                r == Err::<String, AntraError>(AntraError::UnexpectedArchiveShape)
            } else {
                r == Ok::<String, AntraError>(s)
            },
            None => if shape.holds_file {
                r == Err::<String, AntraError>(AntraError::NoAlbumDirectory)
            } else {
                r == Err::<String, AntraError>(AntraError::EmptyArchive)
            },
        },
{
    match shape.subdirectory {
        Some(s) => if shape.holds_file {
            Err(AntraError::UnexpectedArchiveShape)
        } else {
            Ok(s)
        },
        None => if shape.holds_file {
            Err(AntraError::NoAlbumDirectory)
        } else {
            Err(AntraError::EmptyArchive)
        },
    }
}

/// The album directory must hold files and no subdirectory: disc folders would be lost
/// when its files are copied flat.
pub fn check_album_directory(shape: &DirectoryShape) -> (r: Result<(), AntraError>)
    ensures
        shape.subdirectory is Some ==> r == Err::<(), AntraError>(AntraError::UnexpectedArchiveShape),
        shape.subdirectory is None && !shape.holds_file ==> r == Err::<(), AntraError>(
            AntraError::EmptyArchive,
        ),
        shape.subdirectory is None && shape.holds_file ==> r == Ok::<(), AntraError>(()),
{
    match shape.subdirectory {
        Some(_) => Err(AntraError::UnexpectedArchiveShape),
        None => if shape.holds_file {
            Ok(())
        } else {
            Err(AntraError::EmptyArchive)
        },
    }
}

} // verus!
