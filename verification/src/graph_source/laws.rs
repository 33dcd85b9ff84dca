//! What holds of every fetch of content.

use vstd::prelude::*;
use crate::graph_source::{
    asked, asks_again, bytes_of, changed_at, opened, source_trouble, DriveItem, FetchedModel,
    SourceErrorModel, SourceModel,
};
use crate::listing::{DriveError, DriveKind};

verus! {

/// A missing item and a signed-out account end a fill; nothing else does, and in
/// either case what was said is said on.
pub proof fn law_what_ends_a_fill(kind: DriveKind, text: Seq<char>)
    ensures
        source_trouble(kind, text) == SourceErrorModel::NotFound(text) <==> kind == DriveKind::NotFound
            || kind == DriveKind::SignedOut,
        source_trouble(kind, text) == SourceErrorModel::NotFound(text) || source_trouble(kind, text)
            == SourceErrorModel::Transient(text),
{
}

/// A time before the epoch is the epoch; any other is what it is.
pub proof fn law_no_time_is_before_the_epoch(seconds: i64)
    ensures
        seconds >= 0 ==> changed_at(seconds) == seconds,
        seconds < 0 ==> changed_at(seconds) == 0,
{
}

/// An item's content is read where its metadata says, and what was said of it is
/// what the fetch tells of it once the stream is open: its size, when it changed,
/// and its version with its hash, where it has one; from where it was served.
pub proof fn law_a_fetch_tells_what_the_metadata_said(m: SourceModel, item: DriveItem, served_from: u64)
    ensures
        !item.deleted && item.is_file ==> {
            let (told, link) = asked(m, Ok(item));
            &&& link == Ok::<Option<Seq<char>>, SourceErrorModel>(
                match item.download_url {
                    Some(url) => Some(url@),
                    None => None,
                },
            )
            &&& told.item_id == m.item_id && told.fresh_link == m.fresh_link
            &&& opened(told, Ok(served_from)).1 matches Ok(Some(f)) && {
                &&& f.served_from == served_from
                &&& f.size == match item.size {
                    Some(size) => size,
                    None => 0,
                }
                &&& f.mtime == changed_at(item.mtime)
                &&& f.version is Some <==> item.ctag is Some
                &&& f.version matches Some(v) ==> v.ctag == item.ctag->0@ && v.quick_xor == bytes_of(
                    item.quick_xor,
                )
            }
        },
        item.deleted || !item.is_file ==> asked(m, Ok(item)) == (
            m,
            Err::<Option<Seq<char>>, SourceErrorModel>(
                SourceErrorModel::NotFound(m.item_id + " is not a file in OneDrive any more"@),
            ),
        ),
{
}

/// Trouble with a download ends it, but for a link that has expired the first
/// time; what was known of the item stays known, and it is asked for again.
pub proof fn law_only_an_expired_link_is_asked_for_again(m: SourceModel, e: DriveError)
    ensures
        asks_again(m, e.kind) <==> e.kind == DriveKind::UrlExpired && !m.fresh_link,
        opened(m, Err(e)).1 == Ok::<Option<FetchedModel>, SourceErrorModel>(None) <==> asks_again(m, e.kind),
        opened(m, Err(e)).1 is Err ==> opened(m, Err(e)).1 == Err::<
            Option<FetchedModel>,
            SourceErrorModel,
        >(source_trouble(e.kind, e.text@)) && opened(m, Err(e)).0 == m,
        opened(m, Err(e)).1 is Ok ==> {
            let next = opened(m, Err(e)).0;
            next.fresh_link && next.item_id == m.item_id && next.size == m.size && next.mtime == m.mtime
                && next.version == m.version
        },
        asked(m, Err(e)) == (
            m,
            Err::<Option<Seq<char>>, SourceErrorModel>(source_trouble(e.kind, e.text@)),
        ),
{
}

} // verus!
