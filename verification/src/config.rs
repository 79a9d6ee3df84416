//! The settings that the program starts with.

use vstd::prelude::*;

verus! {

/// The settings, from the command line or the environment.
#[derive(Debug, Clone)]
pub struct Cli {
    /// The address that is listened on.
    pub host: String,
    /// The port that is listened on.
    pub port: u16,
    /// The name to log in with.
    pub username: Option<String>,
    /// The password to log in with.
    pub password: Option<String>,
    /// The directory of the cookies, the channel table and the logos.
    pub data_dir: String,
    /// The name of the quality that streams are fetched in.
    pub quality: String,
    /// The directory that sessions are written to.
    pub stream_dir: Option<String>,
    /// The seconds after which an idle session ends.
    pub session_idle_secs: u64,
    /// How long a segment is meant to be, in seconds.
    pub hls_segment_duration: u32,
    /// How many segments a playlist lists.
    pub hls_playlist_size: u32,
    /// Whether streams are transcoded.
    pub transcode: bool,
}

impl Default for Cli {
    /// The settings where nothing is set.
    fn default() -> (res: Self)
        ensures
            res.host@ == "0.0.0.0"@,
            res.port == 8098,
            res.username is None,
            res.password is None,
            res.data_dir@ == "."@,
            res.quality@ == "high"@,
            res.stream_dir is None,
            res.session_idle_secs == 180,
            res.hls_segment_duration == 4,
            res.hls_playlist_size == 6,
            !res.transcode,
    {
        Cli {
            host: "0.0.0.0".to_owned(),
            port: 8098,
            username: None,
            password: None,
            data_dir: ".".to_owned(),
            quality: "high".to_owned(),
            stream_dir: None,
            session_idle_secs: 180,
            hls_segment_duration: 4,
            hls_playlist_size: 6,
            transcode: false,
        }
    }
}

} // verus!
