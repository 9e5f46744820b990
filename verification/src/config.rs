//! Configuration sections and their defaults. A minimal configuration only needs
//! the Lidarr and slskd sections.

use vstd::prelude::*;

verus! {

/// Where Lidarr is and how it sees the downloads.
#[derive(Debug)]
pub struct LidarrConfig {
    pub url: String,
    pub api_key: String,
    /// Lidarr may see the download directory at another path than slskd does
    /// (different container mounts); when unset, slskd's path is used.
    pub download_dir: Option<String>,
}

/// Where slskd is and where it puts downloads.
#[derive(Debug)]
pub struct SlskdConfig {
    pub url: String,
    pub api_key: String,
    pub download_dir: String,
}

/// Tuning of the sync cycle.
#[derive(Debug)]
pub struct KagurConfig {
    pub interval_secs: u64,
    /// The minimum score, as the bit pattern of its IEEE 754 double.
    pub min_score_bits: u64,
    pub preferred_formats: Vec<String>,
    pub max_albums_per_run: usize,
    pub blacklist_ttl_days: u64,
    pub stall_timeout_secs: u64,
}

/// Where the blacklist is stored.
#[derive(Debug)]
pub struct DatabaseConfig {
    pub path: String,
}

/// The whole configuration.
#[derive(Debug)]
pub struct Config {
    pub lidarr: LidarrConfig,
    pub slskd: SlskdConfig,
    pub kagurarr: KagurConfig,
    pub database: DatabaseConfig,
}

/// Seconds between two sync cycles, by default.
pub fn default_interval() -> (r: u64)
    ensures
        r == 600,
{
    600
}

/// Preferred formats, best first, by default: FLAC, then MP3.
pub fn default_formats() -> (r: Vec<String>)
    ensures
        r.len() == 2,
        r[0]@ == "flac"@,
        r[1]@ == "mp3"@,
{
    let mut v: Vec<String> = Vec::new();
    v.push(String::from_str("flac"));
    v.push(String::from_str("mp3"));
    v
}

/// Albums handled per cycle, by default.
pub fn default_max_albums() -> (r: usize)
    ensures
        r == 10,
{
    10
}

/// Days after which a failed attempt is forgotten, by default.
pub fn default_blacklist_ttl_days() -> (r: u64)
    ensures
        r == 30,
{
    30
}

/// Seconds without download progress before a download counts as stalled, by default.
pub fn default_stall_timeout() -> (r: u64)
    ensures
        r == 300,
{
    300
}

/// Path of the blacklist database, by default.
pub fn default_db_path() -> (r: String)
    ensures
        r@ == "/data/kagurarr.db"@,
{
    String::from_str("/data/kagurarr.db")
}

} // verus!
