//! What the upstream service knows a subscriber and a stream by.

use vstd::prelude::*;

verus! {

/// A device that is registered with the account.
#[derive(Debug, Clone)]
pub struct Device {
    pub id: String,
}

/// What a login leaves behind: who the client is, and the secret that it signs
/// requests with.
#[derive(Debug, Clone)]
pub struct Cookies {
    pub id: String,
    pub seed: String,
    pub devices: Vec<Device>,
}

/// A login's name and password.
#[derive(Debug, Clone)]
pub struct Credentials {
    pub username: String,
    pub password: String,
}

/// One of the qualities that streams come in.
#[derive(Debug, Clone)]
pub struct QualityInfo {
    pub bitrate: u64,
    pub label: String,
    pub order: i32,
}

/// The qualities that streams come in, by name.
pub type Qualities = Vec<(String, QualityInfo)>;

/// The names of the qualities.
pub open spec fn quality_names(qualities: Seq<(String, QualityInfo)>) -> Seq<Seq<char>> {
    qualities.map_values(|q: (String, QualityInfo)| q.0@)
}

impl Default for Device {
    fn default() -> (res: Self)
        ensures
            res.id@ == ""@,
    {
        let res = Device { id: String::new() };
        proof {
            reveal_strlit("");
            assert(""@ =~= Seq::<char>::empty());
        }
        res
    }
}

impl Default for Cookies {
    fn default() -> (res: Self)
        ensures
            res.id@ == ""@,
            res.seed@ == ""@,
            res.devices@.len() == 0,
    {
        let res = Cookies { id: String::new(), seed: String::new(), devices: Vec::new() };
        proof {
            reveal_strlit("");
            assert(""@ =~= Seq::<char>::empty());
        }
        res
    }
}

} // verus!
