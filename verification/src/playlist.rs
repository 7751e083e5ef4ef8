//! The kinds of playlist entries the stream logic tells apart.

use vstd::prelude::*;

verus! {

/// What a playlist entry streams.
#[derive(Clone, Copy, Debug, PartialEq, Eq, Structural)]
pub enum PlaylistItemType {
    Live,
    Video,
    Series,
    SeriesInfo,
    Catchup,
    LiveUnknown,
    LiveHls,
    LiveDash,
}

/// The Xtream cluster an entry belongs to.
#[derive(Clone, Copy, Debug, PartialEq, Eq, Structural)]
pub enum XtreamCluster {
    Live,
    Video,
    Series,
}

/// The output formats a target can have.
#[derive(Clone, Copy, Debug, PartialEq, Eq, Structural)]
pub enum TargetType {
    M3u,
    Xtream,
    Strm,
}

/// Whether the entry is a live stream of any kind.
pub open spec fn is_live_type(item_type: PlaylistItemType) -> bool {
    item_type is Live || item_type is LiveHls || item_type is LiveDash || item_type is LiveUnknown
}

} // verus!
