//! The content of a folder that shows OneDrive: each fetch asks for the item's
//! metadata afresh, then streams from the offset asked for.

pub mod laws;

use vstd::prelude::*;
use vstd::string::*;
use crate::listing::{DriveError, DriveKind};

verus! {

/// Why content could not be had.
#[derive(Debug)]
pub enum SourceError {
    /// It ends the fill at once.
    NotFound(String),
    /// It is worth another try.
    Transient(String),
}

#[verifier::ext_equal]
pub enum SourceErrorModel {
    NotFound(Seq<char>),
    Transient(Seq<char>),
}

impl View for SourceError {
    type V = SourceErrorModel;

    open spec fn view(&self) -> SourceErrorModel {
        match self {
            SourceError::NotFound(s) => SourceErrorModel::NotFound(s@),
            SourceError::Transient(s) => SourceErrorModel::Transient(s@),
        }
    }
}

/// What a fill makes of trouble with the drive.
pub open spec fn source_trouble(kind: DriveKind, text: Seq<char>) -> SourceErrorModel {
    if kind == DriveKind::NotFound || kind == DriveKind::SignedOut {
        SourceErrorModel::NotFound(text)
    } else {
        SourceErrorModel::Transient(text)
    }
}

/// A missing item — and a signed-out account, which no retry can fix — ends the
/// fill at once; everything else is worth another try.
pub fn source_error(e: DriveError) -> (r: SourceError)
    ensures
        r@ == source_trouble(e.kind, e.text@),
{
    match e.kind {
        DriveKind::NotFound | DriveKind::SignedOut => SourceError::NotFound(e.text),
        _ => SourceError::Transient(e.text),
    }
}

/// When a file whose item says `seconds` (Unix) changed, in seconds since the
/// epoch.
pub open spec fn changed_at(seconds: i64) -> u64 {
    if seconds <= 0 {
        0
    } else {
        seconds as u64
    }
}

/// When a file whose item says `seconds` (Unix) changed, in seconds since the
/// epoch: never before it.
pub fn mtime_of(seconds: i64) -> (r: u64)
    ensures
        r == if seconds <= 0 {
            0
        } else {
            seconds as int
        },
        r == changed_at(seconds),
{
    if seconds <= 0 {
        0
    } else {
        seconds as u64
    }
}

/// An item's metadata, as a fetch reads it.
#[derive(Debug)]
pub struct DriveItem {
    pub deleted: bool,
    pub is_file: bool,
    pub ctag: Option<String>,
    pub quick_xor: Option<Vec<u8>>,
    pub download_url: Option<String>,
    pub size: Option<u64>,
    /// Unix seconds.
    pub mtime: i64,
}

/// The version fetched, which a fill checks the bytes against.
#[derive(Debug)]
pub struct Version {
    pub ctag: String,
    pub quick_xor: Option<Vec<u8>>,
}

#[verifier::ext_equal]
pub struct VersionModel {
    pub ctag: Seq<char>,
    pub quick_xor: Option<Seq<u8>>,
}

/// Optional bytes, read.
pub open spec fn bytes_of(b: Option<Vec<u8>>) -> Option<Seq<u8>> {
    match b {
        Some(v) => Some(v@),
        None => None,
    }
}

impl View for Version {
    type V = VersionModel;

    open spec fn view(&self) -> VersionModel {
        VersionModel { ctag: self.ctag@, quick_xor: bytes_of(self.quick_xor) }
    }
}

impl DeepView for Version {
    type V = VersionModel;

    open spec fn deep_view(&self) -> VersionModel {
        self.view()
    }
}

/// What is known of the content once its stream is open.
#[derive(Debug)]
pub struct Fetched {
    pub served_from: u64,
    pub size: u64,
    /// Seconds since the epoch.
    pub mtime: u64,
    /// Nothing when the item has no cTag: a fill checks cTag and hash together.
    pub version: Option<Version>,
}

#[verifier::ext_equal]
pub struct FetchedModel {
    pub served_from: u64,
    pub size: u64,
    pub mtime: u64,
    pub version: Option<VersionModel>,
}

impl View for Fetched {
    type V = FetchedModel;

    open spec fn view(&self) -> FetchedModel {
        FetchedModel {
            served_from: self.served_from,
            size: self.size,
            mtime: self.mtime,
            version: self.version.deep_view(),
        }
    }
}

/// The version an item's metadata tells of.
pub open spec fn version_of(item: DriveItem) -> Option<VersionModel> {
    match item.ctag {
        Some(ctag) => Some(VersionModel { ctag: ctag@, quick_xor: bytes_of(item.quick_xor) }),
        None => None,
    }
}

/// A fetch of one item's content: what it has asked for so far.
pub struct GraphSource {
    item_id: String,
    /// A fresh download link has been asked for already.
    fresh_link: bool,
    /// What the item's metadata said.
    size: u64,
    mtime: u64,
    version: Option<Version>,
}

#[verifier::ext_equal]
pub struct SourceModel {
    pub item_id: Seq<char>,
    pub fresh_link: bool,
    pub size: u64,
    pub mtime: u64,
    pub version: Option<VersionModel>,
}

impl View for GraphSource {
    type V = SourceModel;

    closed spec fn view(&self) -> SourceModel {
        SourceModel {
            item_id: self.item_id@,
            fresh_link: self.fresh_link,
            size: self.size,
            mtime: self.mtime,
            version: self.version.deep_view(),
        }
    }
}

/// A fetch once the item's metadata has come.
pub open spec fn told(m: SourceModel, item: DriveItem) -> SourceModel {
    SourceModel {
        size: match item.size {
            Some(size) => size,
            None => 0,
        },
        mtime: if item.mtime <= 0 {
            0
        } else {
            item.mtime as u64
        },
        version: version_of(item),
        ..m
    }
}

/// A download that failed so has a fresh link asked for.
pub open spec fn asks_again(m: SourceModel, kind: DriveKind) -> bool {
    kind == DriveKind::UrlExpired && !m.fresh_link
}

/// Where the content is read from.
#[derive(Debug)]
pub enum Link {
    /// The download link the metadata gave.
    At(String),
    /// It gave none: the item's content link is asked for.
    Ask,
}

/// What comes of a download.
pub enum Downloaded {
    Done(Fetched),
    /// The link had expired: the metadata is asked for again.
    AskAgain,
}

/// Where the content is read from, read: nothing where the link is asked for.
pub open spec fn link_of(r: Result<Link, SourceError>) -> Result<Option<Seq<char>>, SourceErrorModel> {
    match r {
        Ok(Link::At(url)) => Ok(Some(url@)),
        Ok(Link::Ask) => Ok(None),
        Err(e) => Err(e@),
    }
}

/// What came of a download, read: nothing where the metadata is asked for again.
pub open spec fn downloaded_of(r: Result<Downloaded, SourceError>) -> Result<
    Option<FetchedModel>,
    SourceErrorModel,
> {
    match r {
        Ok(Downloaded::Done(f)) => Ok(Some(f@)),
        Ok(Downloaded::AskAgain) => Ok(None),
        Err(e) => Err(e@),
    }
}

/// The fetch once the item's metadata has come, or trouble, and where the content
/// is read from.
pub open spec fn asked(m: SourceModel, got: Result<DriveItem, DriveError>) -> (
    SourceModel,
    Result<Option<Seq<char>>, SourceErrorModel>,
) {
    match got {
        Err(e) => (m, Err(source_trouble(e.kind, e.text@))),
        Ok(item) => if item.deleted || !item.is_file {
            (
                m,
                Err(
                    SourceErrorModel::NotFound(m.item_id + " is not a file in OneDrive any more"@),
                ),
            )
        } else {
            (
                told(m, item),
                Ok(
                    match item.download_url {
                        Some(url) => Some(url@),
                        None => None,
                    },
                ),
            )
        },
    }
}

/// The fetch once the stream is open, or there was trouble, and what came of it.
pub open spec fn opened(m: SourceModel, got: Result<u64, DriveError>) -> (
    SourceModel,
    Result<Option<FetchedModel>, SourceErrorModel>,
) {
    match got {
        Ok(served_from) => (
            SourceModel { version: None, ..m },
            Ok(
                Some(
                    FetchedModel { served_from, size: m.size, mtime: m.mtime, version: m.version },
                ),
            ),
        ),
        Err(e) => if asks_again(m, e.kind) {
            (SourceModel { fresh_link: true, ..m }, Ok(None))
        } else {
            (m, Err(source_trouble(e.kind, e.text@)))
        },
    }
}

impl GraphSource {
    /// A fetch of the content of `item_id`: its metadata is asked for first.
    pub fn new(item_id: String) -> (r: Self)
        ensures
            r@ == (SourceModel {
                item_id: item_id@,
                fresh_link: false,
                size: 0,
                mtime: 0,
                version: None,
            }),
    {
        GraphSource { item_id, fresh_link: false, size: 0, mtime: 0, version: None }
    }

    /// The item's metadata has come, or trouble.
    pub fn item(&mut self, got: Result<DriveItem, DriveError>) -> (r: Result<Link, SourceError>)
        ensures
            match got {
                Err(e) => {
                    &&& final(self)@ == old(self)@
                    &&& r matches Err(trouble) && trouble@ == source_trouble(e.kind, e.text@)
                },
                Ok(item) => if item.deleted || !item.is_file {
                    &&& final(self)@ == old(self)@
                    &&& r matches Err(trouble) && trouble@ == SourceErrorModel::NotFound(
                        old(self)@.item_id + " is not a file in OneDrive any more"@,
                    )
                } else {
                    &&& final(self)@ == told(old(self)@, item)
                    &&& match item.download_url {
                        Some(url) => r matches Ok(Link::At(at)) && at@ == url@,
                        None => r matches Ok(Link::Ask),
                    }
                },
            },
            (final(self)@, link_of(r)) == asked(old(self)@, got),
    {
        let item = match got {
            Ok(item) => item,
            Err(e) => return Err(source_error(e)),
        };
        if item.deleted || !item.is_file {
            let mut text = self.item_id.clone();
            text.append(" is not a file in OneDrive any more");
            return Err(SourceError::NotFound(text));
        }
        let ghost told = version_of(item);
        self.size = match item.size {
            Some(size) => size,
            None => 0,
        };
        self.mtime = mtime_of(item.mtime);
        self.version = match item.ctag {
            Some(ctag) => Some(Version { ctag, quick_xor: item.quick_xor }),
            None => None,
        };
        assert(self@.version == told);
        match item.download_url {
            Some(url) => Ok(Link::At(url)),
            None => Ok(Link::Ask),
        }
    }

    /// The item's content link has come, or trouble.
    pub fn content_url(&self, got: Result<String, DriveError>) -> (r: Result<String, SourceError>)
        ensures
            match got {
                Err(e) => r matches Err(trouble) && trouble@ == source_trouble(e.kind, e.text@),
                Ok(url) => r matches Ok(at) && at@ == url@,
            },
    {
        match got {
            Ok(url) => Ok(url),
            Err(e) => Err(source_error(e)),
        }
    }

    /// The stream is open from `served_from`, or there was trouble. A download
    /// link lives about an hour: a fresh one is asked for, once.
    pub fn download(&mut self, got: Result<u64, DriveError>) -> (r: Result<Downloaded, SourceError>)
        ensures
            match got {
                Ok(served_from) => {
                    &&& final(self)@ == (SourceModel { version: None, ..old(self)@ })
                    &&& r matches Ok(Downloaded::Done(f)) && f@ == (FetchedModel {
                        served_from,
                        size: old(self)@.size,
                        mtime: old(self)@.mtime,
                        version: old(self)@.version,
                    })
                },
                Err(e) => if asks_again(old(self)@, e.kind) {
                    &&& final(self)@ == (SourceModel { fresh_link: true, ..old(self)@ })
                    &&& r matches Ok(Downloaded::AskAgain)
                } else {
                    &&& final(self)@ == old(self)@
                    &&& r matches Err(trouble) && trouble@ == source_trouble(e.kind, e.text@)
                },
            },
            (final(self)@, downloaded_of(r)) == opened(old(self)@, got),
    {
        match got {
            Ok(served_from) => {
                let mut version: Option<Version> = None;
                std::mem::swap(&mut version, &mut self.version);
                Ok(
                    Downloaded::Done(
                        Fetched { served_from, size: self.size, mtime: self.mtime, version },
                    ),
                )
            },
            Err(e) => {
                let expired = match e.kind {
                    DriveKind::UrlExpired => true,
                    _ => false,
                };
                if expired && !self.fresh_link {
                    self.fresh_link = true;
                    Ok(Downloaded::AskAgain)
                } else {
                    Err(source_error(e))
                }
            },
        }
    }
}

/// A fresh download link is asked for once: whatever the metadata says the
/// second time, a link that has expired again ends the fetch.
pub proof fn law_a_fresh_link_is_asked_for_once(m: SourceModel, item: DriveItem, kind: DriveKind)
    requires
        asks_again(m, DriveKind::UrlExpired),
    ensures
        !asks_again(told(SourceModel { fresh_link: true, ..m }, item), kind),
{
}

} // verus!
