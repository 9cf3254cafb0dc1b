//! Plain data shared by the modules: the user's choices, the stored server
//! profiles and settings, and the records the front end receives.

use vstd::prelude::*;

verus! {

/// Output resolution (16:9).
#[derive(Debug, Clone, Copy, PartialEq, Eq, Structural)]
pub enum Resolution {
    P720,
    P1080,
    P1440,
    P2160,
}

impl Resolution {
    /// Width and height of the resolution.
    pub open spec fn spec_dims(self) -> (u32, u32) {
        match self {
            Resolution::P720 => (1280, 720),
            Resolution::P1080 => (1920, 1080),
            Resolution::P1440 => (2560, 1440),
            Resolution::P2160 => (3840, 2160),
        }
    }

    /// Target width and height (16:9).
    pub fn dims(self) -> (r: (u32, u32))
        ensures
            r == self.spec_dims(),
    {
        match self {
            Resolution::P720 => (1280, 720),
            Resolution::P1080 => (1920, 1080),
            Resolution::P1440 => (2560, 1440),
            Resolution::P2160 => (3840, 2160),
        }
    }
}

/// Every resolution is 16:9: width times 9 equals height times 16.
pub proof fn lemma_dims_are_16_by_9(r: Resolution)
    ensures
        r.spec_dims().0 * 9 == r.spec_dims().1 * 16,
{
}

/// Each resolution is as tall as its name says (720, 1080, 1440 or 2160
/// lines), and no two resolutions share a size.
pub proof fn lemma_resolution_sizes(r1: Resolution, r2: Resolution)
    ensures
        r1 == Resolution::P720 ==> r1.spec_dims().1 == 720,
        r1 == Resolution::P1080 ==> r1.spec_dims().1 == 1080,
        r1 == Resolution::P1440 ==> r1.spec_dims().1 == 1440,
        r1 == Resolution::P2160 ==> r1.spec_dims().1 == 2160,
        r1.spec_dims() == r2.spec_dims() ==> r1 == r2,
{
}

/// x264 speed preset.
#[derive(Debug, Clone, Copy, PartialEq, Eq, Structural)]
pub enum Speed {
    Fast,
    Medium,
    Slow,
}

impl Speed {
    /// Name of the x264 preset.
    pub open spec fn spec_preset(self) -> Seq<char> {
        match self {
            Speed::Fast => "fast"@,
            Speed::Medium => "medium"@,
            Speed::Slow => "slow"@,
        }
    }

    /// The x264 `-preset` value.
    pub fn preset(self) -> (r: &'static str)
        ensures
            r@ == self.spec_preset(),
    {
        match self {
            Speed::Fast => "fast",
            Speed::Medium => "medium",
            Speed::Slow => "slow",
        }
    }
}

/// Each speed is x264's preset of that name, and no two speeds share one.
pub proof fn lemma_speed_presets(s1: Speed, s2: Speed)
    ensures
        s1 == Speed::Fast ==> s1.spec_preset() == "fast"@,
        s1 == Speed::Medium ==> s1.spec_preset() == "medium"@,
        s1 == Speed::Slow ==> s1.spec_preset() == "slow"@,
        s1.spec_preset() == s2.spec_preset() ==> s1 == s2,
{
    reveal_strlit("fast");
    reveal_strlit("medium");
    reveal_strlit("slow");
    if s1.spec_preset() == s2.spec_preset() {
        assert(s1.spec_preset().len() == s2.spec_preset().len());
        if s1.spec_preset().len() == 4 {
            assert(s1.spec_preset()[0] == s2.spec_preset()[0]);
        }
    }
}

/// HDR to SDR tone-mapping algorithm.
#[derive(Debug, Clone, Copy, PartialEq, Eq, Structural)]
pub enum Tonemap {
    Hable,
    Mobius,
    Reinhard,
}

impl Tonemap {
    /// Name of the algorithm in ffmpeg's `tonemap` filter.
    pub open spec fn spec_as_str(self) -> Seq<char> {
        match self {
            Tonemap::Hable => "hable"@,
            Tonemap::Mobius => "mobius"@,
            Tonemap::Reinhard => "reinhard"@,
        }
    }

    /// The `tonemap=` value.
    pub fn as_str(self) -> (r: &'static str)
        ensures
            r@ == self.spec_as_str(),
    {
        match self {
            Tonemap::Hable => "hable",
            Tonemap::Mobius => "mobius",
            Tonemap::Reinhard => "reinhard",
        }
    }
}

/// One audio stream of a media file.
#[derive(Debug, PartialEq, Eq)]
pub struct AudioTrack {
    pub index: u32,
    pub codec: String,
    pub channels: u32,
    pub language: Option<String>,
    pub title: Option<String>,
}

/// One subtitle stream of a media file.
#[derive(Debug, PartialEq, Eq)]
pub struct SubtitleTrack {
    pub index: u32,
    pub codec: String,
    pub language: Option<String>,
    pub title: Option<String>,
}

/// Which subtitles to burn in.
#[derive(Debug, PartialEq, Eq)]
pub enum SubtitleChoice {
    /// A subtitle stream of the input, by its global stream index.
    Embedded { index: u32 },
    /// An external `.ass` / `.srt` file.
    External { path: String },
    /// No subtitles.
    Disabled,
}

/// How the server is logged into.
#[derive(Debug, Clone, Copy, PartialEq, Eq, Structural)]
pub enum AuthKind {
    Password,
    Privatekey,
}

/// A server that encoded videos are uploaded to. Passwords and key
/// passphrases are kept in the system key ring, never here.
#[derive(Debug, PartialEq, Eq)]
pub struct ServerProfile {
    pub id: String,
    pub name: String,
    pub host: String,
    pub port: u16,
    pub username: String,
    pub auth_kind: AuthKind,
    pub private_key_path: Option<String>,
    pub remote_dir: String,
    pub url_prefix: String,
    pub access_key: String,
}

/// Copies an optional string.
pub fn clone_opt_string(s: &Option<String>) -> (r: Option<String>)
    ensures
        r == *s,
{
    match s {
        Some(x) => Some(x.clone()),
        None => None,
    }
}

impl Clone for ServerProfile {
    fn clone(&self) -> (r: Self)
        ensures
            r == *self,
    {
        ServerProfile {
            id: self.id.clone(),
            name: self.name.clone(),
            host: self.host.clone(),
            port: self.port,
            username: self.username.clone(),
            auth_kind: self.auth_kind,
            private_key_path: clone_opt_string(&self.private_key_path),
            remote_dir: self.remote_dir.clone(),
            url_prefix: self.url_prefix.clone(),
            access_key: self.access_key.clone(),
        }
    }
}

/// Where a queue item stands.
#[derive(Debug, Clone, Copy, PartialEq, Eq, Structural)]
pub enum ItemStatus {
    Pending,
    Encoding,
    Encoded,
    Uploading,
    Done,
    Error,
}

/// How a batch is scheduled.
#[derive(Debug, Clone, Copy, PartialEq, Eq, Structural)]
pub enum QueueMode {
    /// Encode one item after another; upload each one while the next encodes.
    Pipeline,
    /// Encode all at once, then upload in the items' order, one at a time.
    ParallelEncodeSerialUpload,
    /// Encode and upload every item at once.
    ParallelAll,
}

/// Free and total space of the remote directory, in bytes.
#[derive(Debug, Clone, Copy, PartialEq, Eq, Structural)]
pub struct RemoteSpace {
    pub free_bytes: u64,
    pub total_bytes: u64,
}

/// Where the ffmpeg and ffprobe executables are.
#[derive(Debug, PartialEq, Eq)]
pub struct FfmpegPaths {
    pub ffmpeg: String,
    pub ffprobe: String,
}

/// The application's settings.
#[derive(Debug, PartialEq, Eq)]
pub struct AppSettings {
    pub language: String,
    pub default_resolution: Resolution,
    pub default_speed: Speed,
    pub default_tonemap: Tonemap,
    pub default_audio_bitrate_k: u32,
    pub default_queue_mode: QueueMode,
    pub active_profile_id: Option<String>,
    /// Delete the sample's output file once the sample has been measured.
    pub auto_delete_sample: bool,
}

impl Default for AppSettings {
    fn default() -> (r: Self)
        ensures
            r.language@ == "zh"@,
            r.default_resolution == Resolution::P1440,
            r.default_speed == Speed::Medium,
            r.default_tonemap == Tonemap::Hable,
            r.default_audio_bitrate_k == 192,
            r.default_queue_mode == QueueMode::Pipeline,
            r.active_profile_id is None,
            r.auto_delete_sample,
    {
        AppSettings {
            language: String::from_str("zh"),
            default_resolution: Resolution::P1440,
            default_speed: Speed::Medium,
            default_tonemap: Tonemap::Hable,
            default_audio_bitrate_k: 192,
            default_queue_mode: QueueMode::Pipeline,
            active_profile_id: None,
            auto_delete_sample: true,
        }
    }
}

/// A log line for the front end.
#[derive(Debug, PartialEq, Eq)]
pub struct LogEvent {
    pub item_id: Option<String>,
    pub level: String,
    pub message: String,
}

/// One finished encode in the history list.
#[derive(Debug, PartialEq, Eq)]
pub struct HistoryEntry {
    pub id: String,
    pub file_name: String,
    pub output_path: String,
    pub url: String,
    pub size_bytes: u64,
    /// Local time as the front end wrote it.
    pub created_at: String,
    pub profile_name: String,
}

impl Clone for HistoryEntry {
    fn clone(&self) -> (r: Self)
        ensures
            r == *self,
    {
        HistoryEntry {
            id: self.id.clone(),
            file_name: self.file_name.clone(),
            output_path: self.output_path.clone(),
            url: self.url.clone(),
            size_bytes: self.size_bytes,
            created_at: self.created_at.clone(),
            profile_name: self.profile_name.clone(),
        }
    }
}

/// How to log into a server over SSH.
#[derive(Debug, PartialEq, Eq)]
pub enum Credentials {
    Password { password: String },
    /// A private key file and its passphrase, if it has one.
    PrivateKey { path: String, passphrase: Option<String> },
}

/// How login credentials follow from a profile and its key-ring secret:
/// they are given exactly when the profile's login kind has what it needs
/// (a secret for a password login, a key path for a key login); a password
/// login uses the secret as the password; a key login uses the profile's
/// key path, with the secret (when there is one) as the key's passphrase.
pub open spec fn credentials_follow_profile(
    profile: ServerProfile,
    secret: Option<Seq<char>>,
    r: Result<Credentials, String>,
) -> bool {
    &&& (r is Ok) == (match profile.auth_kind {
        AuthKind::Password => secret is Some,
        AuthKind::Privatekey => profile.private_key_path is Some,
    })
    &&& r matches Ok(Credentials::Password { password }) ==> profile.auth_kind == AuthKind::Password
        && secret == Some(password@)
    &&& r matches Ok(Credentials::PrivateKey { path, passphrase }) ==> profile.auth_kind
        == AuthKind::Privatekey && (profile.private_key_path matches Some(p) && p@ == path@)
        && match passphrase {
        Some(q) => secret == Some(q@),
        None => secret is None,
    }
}

/// Each tone-mapping choice is ffmpeg's algorithm of that name, and no two
/// choices share one.
pub proof fn lemma_tonemap_names(t1: Tonemap, t2: Tonemap)
    ensures
        t1 == Tonemap::Hable ==> t1.spec_as_str() == "hable"@,
        t1 == Tonemap::Mobius ==> t1.spec_as_str() == "mobius"@,
        t1 == Tonemap::Reinhard ==> t1.spec_as_str() == "reinhard"@,
        t1.spec_as_str() == t2.spec_as_str() ==> t1 == t2,
{
    reveal_strlit("hable");
    reveal_strlit("mobius");
    reveal_strlit("reinhard");
    if t1.spec_as_str() == t2.spec_as_str() {
        assert(t1.spec_as_str().len() == t2.spec_as_str().len());
    }
}

} // verus!
