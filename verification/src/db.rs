//! The rows of the channel table.

use vstd::prelude::*;

verus! {

/// A channel as the table holds it.
#[derive(Debug, Clone)]
pub struct ChannelRow {
    pub id: i32,
    pub sgtid: i32,
    pub name: String,
    pub url: String,
}

/// A channel to be put into the table, with borrowed texts.
#[derive(Debug, Clone)]
pub struct NewChannel<'a> {
    pub sgtid: i32,
    pub name: &'a str,
    pub url: &'a str,
}

/// A channel to be put into the table.
#[derive(Debug, Clone)]
pub struct NewChannelOwned {
    pub sgtid: i32,
    pub name: String,
    pub url: String,
}

/// The contents of a list of new channels.
pub open spec fn new_channel_texts(v: Seq<NewChannelOwned>) -> Seq<(i32, Seq<char>, Seq<char>)> {
    v.map_values(|c: NewChannelOwned| (c.sgtid, c.name@, c.url@))
}

impl<'a> From<NewChannel<'a>> for NewChannelOwned {
    fn from(value: NewChannel<'a>) -> (res: Self)
        ensures
            res.sgtid == value.sgtid,
            res.name@ == value.name@,
            res.url@ == value.url@,
    {
        NewChannelOwned {
            sgtid: value.sgtid,
            name: value.name.to_owned(),
            url: value.url.to_owned(),
        }
    }
}

impl<'a> vstd::std_specs::convert::FromSpecImpl<NewChannel<'a>> for NewChannelOwned {
    open spec fn obeys_from_spec() -> bool {
        false
    }

    open spec fn from_spec(value: NewChannel<'a>) -> Self {
        arbitrary()
    }
}

/// How many rows a query for the channel at `index` skips.
pub fn channel_offset(index: usize) -> (res: i64)
    ensures
        res == index as i64,
        index <= i64::MAX ==> res == index,
{
    index as i64
}

/// The channel that a query for one row gave.
pub fn channel_found(rows: Vec<ChannelRow>) -> (res: Option<ChannelRow>)
    ensures
        rows@.len() == 0 ==> res is None,
        rows@.len() > 0 ==> res == Some(rows@.last()),
{
    let mut rows = rows;
    rows.pop()
}

} // verus!
