//! How a request of the Xtream player API is answered: which action it
//! names, which clusters the target's inputs leave out, and what answers it.

use vstd::prelude::*;
use crate::config::{ConfigInput, ConfigInputOptions};
use crate::playlist::XtreamCluster;
use crate::text::{str_eq, trim, trim_str};

verus! {

/// The actions of the player API.
#[derive(Clone, Copy, Debug, PartialEq, Eq, Structural)]
pub enum XtreamApiAction {
    AccountInfo,
    SeriesInfo,
    VodInfo,
    ShortEpg,
    CatchupTable,
    LiveCategories,
    VodCategories,
    SeriesCategories,
    LiveStreams,
    VodStreams,
    Series,
    Unknown,
}

/// The action an action name stands for.
pub open spec fn spec_action(name: Seq<char>) -> XtreamApiAction {
    if name == "get_account_info"@ {
        XtreamApiAction::AccountInfo
    } else if name == "get_series_info"@ {
        XtreamApiAction::SeriesInfo
    } else if name == "get_vod_info"@ {
        XtreamApiAction::VodInfo
    } else if name == "get_epg"@ || name == "get_short_epg"@ {
        XtreamApiAction::ShortEpg
    } else if name == "get_simple_data_table"@ {
        XtreamApiAction::CatchupTable
    } else if name == "get_live_categories"@ {
        XtreamApiAction::LiveCategories
    } else if name == "get_vod_categories"@ {
        XtreamApiAction::VodCategories
    } else if name == "get_series_categories"@ {
        XtreamApiAction::SeriesCategories
    } else if name == "get_live_streams"@ {
        XtreamApiAction::LiveStreams
    } else if name == "get_vod_streams"@ {
        XtreamApiAction::VodStreams
    } else if name == "get_series"@ {
        XtreamApiAction::Series
    } else {
        XtreamApiAction::Unknown
    }
}

/// Reads an action name.
pub fn parse_action(name: &str) -> (r: XtreamApiAction)
    ensures
        r == spec_action(name@),
{
    if str_eq(name, "get_account_info") {
        XtreamApiAction::AccountInfo
    } else if str_eq(name, "get_series_info") {
        XtreamApiAction::SeriesInfo
    } else if str_eq(name, "get_vod_info") {
        XtreamApiAction::VodInfo
    } else if str_eq(name, "get_epg") || str_eq(name, "get_short_epg") {
        XtreamApiAction::ShortEpg
    } else if str_eq(name, "get_simple_data_table") {
        XtreamApiAction::CatchupTable
    } else if str_eq(name, "get_live_categories") {
        XtreamApiAction::LiveCategories
    } else if str_eq(name, "get_vod_categories") {
        XtreamApiAction::VodCategories
    } else if str_eq(name, "get_series_categories") {
        XtreamApiAction::SeriesCategories
    } else if str_eq(name, "get_live_streams") {
        XtreamApiAction::LiveStreams
    } else if str_eq(name, "get_vod_streams") {
        XtreamApiAction::VodStreams
    } else if str_eq(name, "get_series") {
        XtreamApiAction::Series
    } else {
        XtreamApiAction::Unknown
    }
}

/// Which clusters a target leaves out of its player API answers, as
/// `(live, vod, series)`: a cluster is left out when the target's inputs are
/// known and every one of them has options that skip it (so all of them
/// when there are no inputs); never when the inputs are unknown.
pub open spec fn spec_skip_flags(inputs: Option<Seq<Option<ConfigInputOptions>>>) -> (bool, bool, bool) {
    match inputs {
        None => (false, false, false),
        Some(opts) => (
            forall|i: int| 0 <= i < opts.len() ==> (#[trigger] opts[i] matches Some(o) && o.xtream_skip_live),
            forall|i: int| 0 <= i < opts.len() ==> (#[trigger] opts[i] matches Some(o) && o.xtream_skip_vod),
            forall|i: int| 0 <= i < opts.len() ==> (#[trigger] opts[i] matches Some(o) && o.xtream_skip_series),
        ),
    }
}

/// The options of a list of inputs.
pub open spec fn input_options(inputs: Seq<ConfigInput>) -> Seq<Option<ConfigInputOptions>> {
    inputs.map_values(|i: ConfigInput| i.options)
}

/// Computes which clusters a target leaves out, from its inputs.
pub fn get_skip_flags(inputs: Option<&Vec<ConfigInput>>) -> (r: (bool, bool, bool))
    ensures
        r == spec_skip_flags(match inputs {
            Some(v) => Some(input_options(v@)),
            None => None,
        }),
{
    match inputs {
        None => (false, false, false),
        Some(v) => {
            let ghost opts = input_options(v@);
            let mut live = true;
            let mut vod = true;
            let mut series = true;
            let n = v.len();
            let mut i: usize = 0;
            while i < n
                invariant
                    n == v@.len(),
                    opts == input_options(v@),
                    i <= n,
                    live == forall|j: int| 0 <= j < i ==> (#[trigger] opts[j] matches Some(o) && o.xtream_skip_live),
                    vod == forall|j: int| 0 <= j < i ==> (#[trigger] opts[j] matches Some(o) && o.xtream_skip_vod),
                    series == forall|j: int| 0 <= j < i ==> (#[trigger] opts[j] matches Some(o) && o.xtream_skip_series),
                decreases n - i,
            {
                assert(opts[i as int] == v@[i as int].options);
                match v[i].options {
                    None => {
                        live = false;
                        vod = false;
                        series = false;
                    },
                    Some(o) => {
                        live = live && o.xtream_skip_live;
                        vod = vod && o.xtream_skip_vod;
                        series = series && o.xtream_skip_series;
                    },
                }
                i = i + 1;
            }
            (live, vod, series)
        },
    }
}

/// What answers a player API request.
#[derive(Clone, Copy, Debug, PartialEq, Eq, Structural)]
pub enum PlayerApiPlan {
    /// The account and server information.
    UserInfo,
    /// The user may not use the API.
    Forbidden,
    /// An empty JSON list (a left-out cluster or an unknown action).
    EmptyList,
    SeriesInfo,
    VodInfo,
    ShortEpg,
    CatchupTable,
    /// The categories of a cluster.
    Categories(XtreamCluster),
    /// The streams of a cluster.
    Streams(XtreamCluster),
    /// No user with a target matches the request: 400.
    BadRequest,
}

/// The answer to a player API request: targets without Xtream output and
/// requests without action get the user information; a denied user is
/// refused; an action on a left-out cluster gets an empty list.
pub open spec fn spec_player_api_plan(
    has_xtream_output: bool,
    action: Seq<char>,
    permission_denied: bool,
    skip: (bool, bool, bool),
) -> PlayerApiPlan {
    let name = trim(action);
    if !has_xtream_output || name.len() == 0 {
        PlayerApiPlan::UserInfo
    } else if permission_denied {
        PlayerApiPlan::Forbidden
    } else {
        match spec_action(name) {
            XtreamApiAction::AccountInfo => PlayerApiPlan::UserInfo,
            XtreamApiAction::SeriesInfo => if skip.2 { PlayerApiPlan::EmptyList } else { PlayerApiPlan::SeriesInfo },
            XtreamApiAction::VodInfo => if skip.1 { PlayerApiPlan::EmptyList } else { PlayerApiPlan::VodInfo },
            XtreamApiAction::ShortEpg => PlayerApiPlan::ShortEpg,
            XtreamApiAction::CatchupTable => if skip.0 { PlayerApiPlan::EmptyList } else { PlayerApiPlan::CatchupTable },
            XtreamApiAction::LiveCategories => PlayerApiPlan::Categories(XtreamCluster::Live),
            XtreamApiAction::VodCategories => PlayerApiPlan::Categories(XtreamCluster::Video),
            XtreamApiAction::SeriesCategories => PlayerApiPlan::Categories(XtreamCluster::Series),
            XtreamApiAction::LiveStreams => if skip.0 { PlayerApiPlan::EmptyList } else { PlayerApiPlan::Streams(XtreamCluster::Live) },
            XtreamApiAction::VodStreams => if skip.1 { PlayerApiPlan::EmptyList } else { PlayerApiPlan::Streams(XtreamCluster::Video) },
            XtreamApiAction::Series => if skip.2 { PlayerApiPlan::EmptyList } else { PlayerApiPlan::Streams(XtreamCluster::Series) },
            XtreamApiAction::Unknown => PlayerApiPlan::EmptyList,
        }
    }
}

/// Decides how a player API request is answered.
pub fn plan_player_api(
    has_xtream_output: bool,
    action: &str,
    permission_denied: bool,
    skip: (bool, bool, bool),
) -> (r: PlayerApiPlan)
    ensures
        r == spec_player_api_plan(has_xtream_output, action@, permission_denied, skip),
{
    let name = trim_str(action);
    if !has_xtream_output || name.as_str().is_empty() {
        return PlayerApiPlan::UserInfo;
    }
    if permission_denied {
        return PlayerApiPlan::Forbidden;
    }
    let (skip_live, skip_vod, skip_series) = skip;
    match parse_action(name.as_str()) {
        XtreamApiAction::AccountInfo => PlayerApiPlan::UserInfo,
        XtreamApiAction::SeriesInfo => if skip_series { PlayerApiPlan::EmptyList } else { PlayerApiPlan::SeriesInfo },
        XtreamApiAction::VodInfo => if skip_vod { PlayerApiPlan::EmptyList } else { PlayerApiPlan::VodInfo },
        XtreamApiAction::ShortEpg => PlayerApiPlan::ShortEpg,
        XtreamApiAction::CatchupTable => if skip_live { PlayerApiPlan::EmptyList } else { PlayerApiPlan::CatchupTable },
        XtreamApiAction::LiveCategories => PlayerApiPlan::Categories(XtreamCluster::Live),
        XtreamApiAction::VodCategories => PlayerApiPlan::Categories(XtreamCluster::Video),
        XtreamApiAction::SeriesCategories => PlayerApiPlan::Categories(XtreamCluster::Series),
        XtreamApiAction::LiveStreams => if skip_live { PlayerApiPlan::EmptyList } else { PlayerApiPlan::Streams(XtreamCluster::Live) },
        XtreamApiAction::VodStreams => if skip_vod { PlayerApiPlan::EmptyList } else { PlayerApiPlan::Streams(XtreamCluster::Video) },
        XtreamApiAction::Series => if skip_series { PlayerApiPlan::EmptyList } else { PlayerApiPlan::Streams(XtreamCluster::Series) },
        XtreamApiAction::Unknown => PlayerApiPlan::EmptyList,
    }
}

/// A left-out cluster never has its streams or details served: whatever
/// the action, the answer for a skipped cluster is no content of it.
pub proof fn lemma_skipped_cluster_not_served(
    has_xtream_output: bool,
    action: Seq<char>,
    permission_denied: bool,
    skip: (bool, bool, bool),
)
    ensures
        skip.0 ==> spec_player_api_plan(has_xtream_output, action, permission_denied, skip)
            != PlayerApiPlan::Streams(XtreamCluster::Live),
        skip.0 ==> spec_player_api_plan(has_xtream_output, action, permission_denied, skip)
            != PlayerApiPlan::CatchupTable,
        skip.1 ==> spec_player_api_plan(has_xtream_output, action, permission_denied, skip)
            != PlayerApiPlan::Streams(XtreamCluster::Video),
        skip.1 ==> spec_player_api_plan(has_xtream_output, action, permission_denied, skip)
            != PlayerApiPlan::VodInfo,
        skip.2 ==> spec_player_api_plan(has_xtream_output, action, permission_denied, skip)
            != PlayerApiPlan::Streams(XtreamCluster::Series),
        skip.2 ==> spec_player_api_plan(has_xtream_output, action, permission_denied, skip)
            != PlayerApiPlan::SeriesInfo,
        permission_denied && has_xtream_output && trim(action).len() > 0 ==>
            spec_player_api_plan(has_xtream_output, action, permission_denied, skip) == PlayerApiPlan::Forbidden,
{
}

/// The answer to a player API request as it arrives: a request for which no
/// user with a target was found is answered 400; otherwise as
/// `spec_player_api_plan` says.
pub open spec fn spec_player_api_request_plan(
    user_target_found: bool,
    has_xtream_output: bool,
    action: Seq<char>,
    permission_denied: bool,
    skip: (bool, bool, bool),
) -> PlayerApiPlan {
    if !user_target_found {
        PlayerApiPlan::BadRequest
    } else {
        spec_player_api_plan(has_xtream_output, action, permission_denied, skip)
    }
}

/// Decides how a player API request is answered, from whether a user with a
/// target matches it and what that user and target allow.
pub fn plan_player_api_request(
    user_target_found: bool,
    has_xtream_output: bool,
    action: &str,
    permission_denied: bool,
    skip: (bool, bool, bool),
) -> (r: PlayerApiPlan)
    ensures
        r == spec_player_api_request_plan(user_target_found, has_xtream_output, action@, permission_denied, skip),
        !user_target_found ==> r == PlayerApiPlan::BadRequest,
{
    if !user_target_found {
        PlayerApiPlan::BadRequest
    } else {
        plan_player_api(has_xtream_output, action, permission_denied, skip)
    }
}

/// The categories answered are those of the cluster the action names
/// (`get_live_categories`, `get_vod_categories`, `get_series_categories`),
/// and the streams answered are those of the cluster the action names
/// (`get_live_streams`, `get_vod_streams`, `get_series`) unless that
/// cluster is left out; both only for an allowed user of a target with
/// Xtream output.
pub proof fn lemma_actions_answer_their_own_cluster(
    has_xtream_output: bool,
    action: Seq<char>,
    permission_denied: bool,
    skip: (bool, bool, bool),
    c: XtreamCluster,
)
    ensures
        spec_player_api_plan(has_xtream_output, action, permission_denied, skip) == PlayerApiPlan::Categories(c)
            <==> (has_xtream_output && !permission_denied && trim(action) == match c {
                XtreamCluster::Live => seq!['g', 'e', 't', '_', 'l', 'i', 'v', 'e', '_', 'c', 'a', 't', 'e', 'g', 'o', 'r', 'i', 'e', 's'],
                XtreamCluster::Video => seq!['g', 'e', 't', '_', 'v', 'o', 'd', '_', 'c', 'a', 't', 'e', 'g', 'o', 'r', 'i', 'e', 's'],
                XtreamCluster::Series => seq!['g', 'e', 't', '_', 's', 'e', 'r', 'i', 'e', 's', '_', 'c', 'a', 't', 'e', 'g', 'o', 'r', 'i', 'e', 's'],
            }),
        spec_player_api_plan(has_xtream_output, action, permission_denied, skip) == PlayerApiPlan::Streams(c)
            <==> (has_xtream_output && !permission_denied && match c {
                XtreamCluster::Live => !skip.0 && trim(action) == seq!['g', 'e', 't', '_', 'l', 'i', 'v', 'e', '_', 's', 't', 'r', 'e', 'a', 'm', 's'],
                XtreamCluster::Video => !skip.1 && trim(action) == seq!['g', 'e', 't', '_', 'v', 'o', 'd', '_', 's', 't', 'r', 'e', 'a', 'm', 's'],
                XtreamCluster::Series => !skip.2 && trim(action) == seq!['g', 'e', 't', '_', 's', 'e', 'r', 'i', 'e', 's'],
            }),
{
    reveal_strlit("get_account_info");
    reveal_strlit("get_series_info");
    reveal_strlit("get_vod_info");
    reveal_strlit("get_epg");
    reveal_strlit("get_short_epg");
    reveal_strlit("get_simple_data_table");
    reveal_strlit("get_live_categories");
    reveal_strlit("get_vod_categories");
    reveal_strlit("get_series_categories");
    reveal_strlit("get_live_streams");
    reveal_strlit("get_vod_streams");
    reveal_strlit("get_series");
    assert("get_live_categories"@ =~= seq!['g', 'e', 't', '_', 'l', 'i', 'v', 'e', '_', 'c', 'a', 't', 'e', 'g', 'o', 'r', 'i', 'e', 's']);
    assert("get_vod_categories"@ =~= seq!['g', 'e', 't', '_', 'v', 'o', 'd', '_', 'c', 'a', 't', 'e', 'g', 'o', 'r', 'i', 'e', 's']);
    assert("get_series_categories"@ =~= seq!['g', 'e', 't', '_', 's', 'e', 'r', 'i', 'e', 's', '_', 'c', 'a', 't', 'e', 'g', 'o', 'r', 'i', 'e', 's']);
    assert("get_live_streams"@ =~= seq!['g', 'e', 't', '_', 'l', 'i', 'v', 'e', '_', 's', 't', 'r', 'e', 'a', 'm', 's']);
    assert("get_vod_streams"@ =~= seq!['g', 'e', 't', '_', 'v', 'o', 'd', '_', 's', 't', 'r', 'e', 'a', 'm', 's']);
    assert("get_series"@ =~= seq!['g', 'e', 't', '_', 's', 'e', 'r', 'i', 'e', 's']);
}

/// The other answers of the player API: the user information without
/// Xtream output, without action, or for `get_account_info`; 403 for a
/// denied user with an action; the series and VOD details, the short EPG
/// and the catch-up table for their actions (the details and the table not
/// for a left-out cluster); an empty list for any other action.
pub proof fn lemma_player_api_other_answers(
    has_xtream_output: bool,
    action: Seq<char>,
    permission_denied: bool,
    skip: (bool, bool, bool),
)
    ensures
        ({
            let r = spec_player_api_plan(has_xtream_output, action, permission_denied, skip);
            let a = trim(action);
            let ok = has_xtream_output && a.len() > 0 && !permission_denied;
            &&& r == PlayerApiPlan::UserInfo <==> (!has_xtream_output || a.len() == 0
                || (ok && a == seq!['g', 'e', 't', '_', 'a', 'c', 'c', 'o', 'u', 'n', 't', '_', 'i', 'n', 'f', 'o']))
            &&& r == PlayerApiPlan::Forbidden <==> (has_xtream_output && a.len() > 0 && permission_denied)
            &&& r == PlayerApiPlan::ShortEpg <==> (ok && (a == seq!['g', 'e', 't', '_', 'e', 'p', 'g']
                || a == seq!['g', 'e', 't', '_', 's', 'h', 'o', 'r', 't', '_', 'e', 'p', 'g']))
            &&& r == PlayerApiPlan::SeriesInfo <==> (ok && !skip.2
                && a == seq!['g', 'e', 't', '_', 's', 'e', 'r', 'i', 'e', 's', '_', 'i', 'n', 'f', 'o'])
            &&& r == PlayerApiPlan::VodInfo <==> (ok && !skip.1 && a == seq!['g', 'e', 't', '_', 'v', 'o', 'd', '_', 'i', 'n', 'f', 'o'])
            &&& r == PlayerApiPlan::CatchupTable <==> (ok && !skip.0 && a == seq!['g', 'e', 't', '_', 's', 'i', 'm', 'p', 'l', 'e',
                '_', 'd', 'a', 't', 'a', '_', 't', 'a', 'b', 'l', 'e'])
            &&& r != PlayerApiPlan::BadRequest
        }),
{
    reveal_strlit("get_account_info");
    reveal_strlit("get_series_info");
    reveal_strlit("get_vod_info");
    reveal_strlit("get_epg");
    reveal_strlit("get_short_epg");
    reveal_strlit("get_simple_data_table");
    reveal_strlit("get_live_categories");
    reveal_strlit("get_vod_categories");
    reveal_strlit("get_series_categories");
    reveal_strlit("get_live_streams");
    reveal_strlit("get_vod_streams");
    reveal_strlit("get_series");
    assert("get_account_info"@ =~= seq!['g', 'e', 't', '_', 'a', 'c', 'c', 'o', 'u', 'n', 't', '_', 'i', 'n', 'f', 'o']);
    assert("get_epg"@ =~= seq!['g', 'e', 't', '_', 'e', 'p', 'g']);
    assert("get_short_epg"@ =~= seq!['g', 'e', 't', '_', 's', 'h', 'o', 'r', 't', '_', 'e', 'p', 'g']);
    assert("get_series_info"@ =~= seq!['g', 'e', 't', '_', 's', 'e', 'r', 'i', 'e', 's', '_', 'i', 'n', 'f', 'o']);
    assert("get_vod_info"@ =~= seq!['g', 'e', 't', '_', 'v', 'o', 'd', '_', 'i', 'n', 'f', 'o']);
    assert("get_simple_data_table"@ =~= seq!['g', 'e', 't', '_', 's', 'i', 'm', 'p', 'l', 'e',
        '_', 'd', 'a', 't', 'a', '_', 't', 'a', 'b', 'l', 'e']);
}

} // verus!
