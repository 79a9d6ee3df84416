//! The service's list of channels, and the channels that are taken from it.

use crate::db::{new_channel_texts, NewChannelOwned};
use std::collections::HashSet;
use vstd::prelude::*;

verus! {

/// A JSON value, which the library carries along unread.
#[verifier::external_type_specification]
#[verifier::external_body]
pub struct ExJsonValue(serde_json::Value);

/// What may be done with a channel at one place.
#[derive(Clone, Debug)]
pub struct Constraints {
    pub live: bool,
    pub cu: bool,
    pub so: bool,
    pub npvr: bool,
    pub navigable_services: Vec<String>,
    pub cast: bool,
}

/// The ids of a channel in other systems.
#[derive(Clone, Debug)]
pub enum AlternateId {
    Object { dune_id: u32, vectra_uuid: Option<String> },
    Array(Vec<serde_json::Value>),
}

/// The addresses of a channel's streams.
#[derive(Clone, Debug)]
pub enum AssetUrlField {
    Object { hls_ac3: String, hls_aac: String },
    Array(Vec<serde_json::Value>),
}

impl Default for AssetUrlField {
    fn default() -> (res: Self)
        ensures
            res matches AssetUrlField::Array(values) && values@.len() == 0,
    {
        AssetUrlField::Array(Vec::new())
    }
}

/// A channel as the service lists it.
#[derive(Clone, Debug)]
pub struct Asset {
    pub sgtid: u32,
    pub epg_mapping_id: u32,
    pub name: String,
    pub category: Option<String>,
    pub category_start: bool,
    pub number: u32,
    pub entitled: bool,
    pub a_logo: Option<String>,
    pub a_cu_max_time: String,
    pub default_number: Option<String>,
    pub name_encoded: Option<String>,
    pub alternate_id: Option<AlternateId>,
    pub constraints_out_of_home: Constraints,
    pub constraints_at_home: Constraints,
    pub url: Option<AssetUrlField>,
}

/// The service's list of channels.
#[derive(Clone, Debug)]
pub struct Assets(pub Vec<Asset>);

/// The address of a channel's stream; nothing where it has none.
pub open spec fn stream_address(asset: Asset) -> Seq<char> {
    match asset.url {
        Some(AssetUrlField::Object { hls_ac3, hls_aac }) => hls_aac@,
        _ => ""@,
    }
}

/// A channel that can be watched: it has a name, an id and an address.
pub open spec fn is_watchable(asset: Asset) -> bool {
    &&& asset.name@.len() > 0
    &&& asset.sgtid != 0
    &&& asset.url matches Some(AssetUrlField::Object { hls_ac3, hls_aac })
    &&& hls_aac@.len() > 0
}

/// A watchable channel with this id is among the first `n`.
pub open spec fn is_listed(assets: Seq<Asset>, n: int, sgtid: u32) -> bool {
    exists|i: int|
        0 <= i < n && i < assets.len() && is_watchable(#[trigger] assets[i]) && assets[i].sgtid
            == sgtid
}

/// The row that is kept of a channel.
pub open spec fn channel_of(asset: Asset) -> (i32, Seq<char>, Seq<char>) {
    (asset.sgtid as i32, asset.name@, stream_address(asset))
}

/// The rows that are kept of a list: the watchable channels in their order,
/// and of those with the same id the first.
pub open spec fn kept_channels(assets: Seq<Asset>) -> Seq<(i32, Seq<char>, Seq<char>)>
    decreases assets.len(),
{
    if assets.len() == 0 {
        seq![]
    } else {
        let rest = assets.drop_last();
        if is_watchable(assets.last()) && !is_listed(rest, rest.len() as int, assets.last().sgtid) {
            kept_channels(rest).push(channel_of(assets.last()))
        } else {
            kept_channels(rest)
        }
    }
}

/// The channels to keep of the service's list.
pub fn select_channels(assets: &Assets) -> (res: Vec<NewChannelOwned>)
    ensures
        new_channel_texts(res@) == kept_channels(assets.0@),
{
    let ghost all = assets.0@;
    let mut rows: Vec<NewChannelOwned> = Vec::new();
    let mut seen: HashSet<u32> = HashSet::new();
    let mut i: usize = 0;
    assert(all.take(0) =~= seq![]);
    while i < assets.0.len()
        invariant
            i <= assets.0.len(),
            all == assets.0@,
            new_channel_texts(rows@) == kept_channels(all.take(i as int)),
            forall|id: u32| #[trigger]
                seen@.contains(id) <==> is_listed(all.take(i as int), i as int, id),
        decreases assets.0.len() - i,
    {
        let item = &assets.0[i];
        let ghost before = all.take(i as int);
        let ghost after = all.take(i + 1);
        proof {
            assert(after.drop_last() =~= before);
            assert(after.last() == *item);
            lemma_listed_step(all, i as int);
        }
        if !item.name.as_str().is_empty() && item.sgtid != 0 && !seen.contains(&item.sgtid) {
            if let Some(AssetUrlField::Object { hls_ac3: _, hls_aac }) = &item.url {
                if !hls_aac.as_str().is_empty() {
                    let row = NewChannelOwned {
                        sgtid: item.sgtid as i32,
                        name: item.name.clone(),
                        url: hls_aac.clone(),
                    };
                    assert(new_channel_texts(rows@.push(row)) =~= new_channel_texts(rows@).push(
                        channel_of(*item),
                    ));
                    rows.push(row);
                    seen.insert(item.sgtid);
                }
            }
        }
        i += 1;
    }
    assert(all.take(all.len() as int) =~= all);
    rows
}

/// What one more channel adds to the listed ids.
proof fn lemma_listed_step(assets: Seq<Asset>, n: int)
    requires
        0 <= n < assets.len(),
    ensures
        forall|id: u32| #[trigger]
            is_listed(assets.take(n + 1), n + 1, id) <==> (is_listed(assets.take(n), n, id) || (
            is_watchable(assets[n]) && assets[n].sgtid == id)),
{
    let before = assets.take(n);
    let after = assets.take(n + 1);
    assert forall|id: u32| #[trigger] is_listed(after, n + 1, id) <==> (is_listed(before, n, id)
        || (is_watchable(assets[n]) && assets[n].sgtid == id)) by {
        if is_listed(before, n, id) {
            let i = choose|i: int|
                0 <= i < n && i < before.len() && is_watchable(#[trigger] before[i])
                    && before[i].sgtid == id;
            assert(after[i] == before[i]);
        }
        if is_watchable(assets[n]) && assets[n].sgtid == id {
            assert(after[n] == assets[n]);
        }
        if is_listed(after, n + 1, id) {
            let i = choose|i: int|
                0 <= i < n + 1 && i < after.len() && is_watchable(#[trigger] after[i])
                    && after[i].sgtid == id;
            if i < n {
                assert(before[i] == after[i]);
            }
        }
    }
}

/// Ids stay apart when they are kept as signed numbers.
proof fn lemma_ids_stay_apart(a: u32, b: u32)
    requires
        a != b,
    ensures
        a as i32 != b as i32,
{
    assert(a != b ==> a as i32 != b as i32) by (bit_vector);
}

/// Every kept row is that of a watchable channel of the list.
proof fn lemma_kept_is_listed(assets: Seq<Asset>, k: int)
    requires
        0 <= k < kept_channels(assets).len(),
    ensures
        exists|i: int|
            0 <= i < assets.len() && is_watchable(#[trigger] assets[i]) && channel_of(assets[i])
                == kept_channels(assets)[k],
    decreases assets.len(),
{
    let rest = assets.drop_last();
    if k < kept_channels(rest).len() {
        lemma_kept_is_listed(rest, k);
        let i = choose|i: int|
            0 <= i < rest.len() && is_watchable(#[trigger] rest[i]) && channel_of(rest[i])
                == kept_channels(rest)[k];
        assert(assets[i] == rest[i]);
    } else {
        assert(assets[assets.len() - 1] == assets.last());
    }
}

/// No id is kept twice.
pub proof fn law_kept_ids_are_distinct(assets: Seq<Asset>, j: int, k: int)
    requires
        0 <= j < k < kept_channels(assets).len(),
    ensures
        kept_channels(assets)[j].0 != kept_channels(assets)[k].0,
    decreases assets.len(),
{
    let rest = assets.drop_last();
    if k < kept_channels(rest).len() {
        law_kept_ids_are_distinct(rest, j, k);
    } else {
        lemma_kept_is_listed(rest, j);
        let i = choose|i: int|
            0 <= i < rest.len() && is_watchable(#[trigger] rest[i]) && channel_of(rest[i])
                == kept_channels(rest)[j];
        lemma_ids_stay_apart(rest[i].sgtid, assets.last().sgtid);
    }
}

/// Of the channels with one id, the first that can be watched is kept.
pub proof fn law_first_watchable_is_kept(assets: Seq<Asset>, i: int)
    requires
        0 <= i < assets.len(),
        is_watchable(assets[i]),
        !is_listed(assets, i, assets[i].sgtid),
    ensures
        kept_channels(assets).contains(channel_of(assets[i])),
    decreases assets.len(),
{
    let rest = assets.drop_last();
    let kept = kept_channels(assets);
    if i < rest.len() {
        assert forall|j: int| 0 <= j < i && j < rest.len() && is_watchable(
            #[trigger] rest[j],
        ) implies rest[j].sgtid != rest[i].sgtid by {
            assert(assets[j] == rest[j]);
        }
        law_first_watchable_is_kept(rest, i);
        let k = choose|k: int|
            0 <= k < kept_channels(rest).len() && kept_channels(rest)[k] == channel_of(rest[i]);
        assert(kept[k] == kept_channels(rest)[k]);
    } else {
        assert forall|j: int| 0 <= j < rest.len() && is_watchable(#[trigger] rest[j]) implies rest[
            j
        ].sgtid != assets[i].sgtid by {
            assert(assets[j] == rest[j]);
        }
        assert(kept[kept.len() - 1] == channel_of(assets[i]));
    }
}

} // verus!
