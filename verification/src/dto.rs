//! The values that the library takes and gives, and what they mean as
//! mathematical values.
use vstd::prelude::*;
use crate::text;

verus! {

/// The settings of the source, as they are shown.
#[derive(Debug, Clone)]
pub struct QQMusicSourceConfigDto {
    pub enabled: bool,
    pub base_url: String,
    pub has_token: bool,
    pub masked_token: String,
}

/// The settings of the source, as they are to be saved.
#[derive(Debug)]
pub struct SaveQQMusicSourceConfigPayload {
    pub enabled: bool,
    pub base_url: Option<String>,
    pub token: Option<String>,
}

/// The settings of the source, as requests use them. The token is a cookie header.
#[derive(Debug, Clone)]
pub struct ResolvedQQMusicSourceConfig {
    pub enabled: bool,
    pub base_url: String,
    pub token: Option<String>,
}

/// Whether somebody is logged in, and who. The membership is one of `none`,
/// `green` and `super`.
#[derive(Debug, Clone)]
pub struct QQMusicLoginStatusDto {
    pub logged_in: bool,
    pub uin: String,
    pub nickname: String,
    pub avatar_url: String,
    pub vip_type: String,
    pub message: String,
}

/// A QR code to log in with.
#[derive(Debug, Clone)]
pub struct QQMusicQrLoginDto {
    pub url: String,
    pub key: String,
    pub cookies: String,
}

/// How far a login by QR code has come: `waiting`, `scanned`, `confirmed`,
/// `expired` or `failed`.
#[derive(Debug, Clone)]
pub struct QQMusicQrCheckDto {
    pub status: String,
    pub cookie: Option<String>,
    pub message: Option<String>,
}

/// A request for one song.
#[derive(Debug)]
pub struct QQMusicSourceSongPayload {
    pub song_id: String,
}

/// A request to play one song.
#[derive(Debug)]
pub struct QQMusicPlayablePayload {
    pub song_id: String,
    pub quality: Option<String>,
}

/// A search.
#[derive(Debug)]
pub struct QQMusicSearchPayload {
    pub query: String,
    pub page: Option<u32>,
    pub page_size: Option<u32>,
}

/// A playlist of the user.
#[derive(Debug, Clone)]
pub struct QQMusicUserPlaylistDto {
    pub id: String,
    pub name: String,
    pub track_count: u32,
    pub creator_name: String,
    pub subscribed: bool,
    pub cover_url: String,
    pub description: String,
}

/// A membership. Where it is not known, `membership_known` is false.
#[derive(Debug, Clone)]
pub struct QQMusicVipStatusDto {
    pub is_member: bool,
    pub level: Option<String>,
    pub message: String,
    pub membership_known: bool,
}

/// The user who is logged in.
#[derive(Debug, Clone)]
pub struct QQMusicUserProfileDto {
    pub logged_in: bool,
    pub nickname: Option<String>,
    pub user_id: Option<String>,
    pub avatar_url: Option<String>,
    pub vip: Option<QQMusicVipStatusDto>,
}

/// A song of any source.
#[derive(Debug, Clone)]
pub struct SourceSongDto {
    pub id: String,
    pub source: Option<String>,
    pub title: String,
    pub artist: String,
    pub album: String,
    pub duration_seconds: u64,
    pub cover_url: String,
    pub playable_url: Option<String>,
    pub unavailable: bool,
    pub unavailable_reason: Option<String>,
    pub bvid: Option<String>,
    pub aid: Option<u64>,
    pub cid: Option<u64>,
    pub uploader: Option<String>,
    pub danmaku_count: Option<u64>,
    pub play_count: Option<u64>,
    pub page_index: Option<u32>,
    pub source_url: Option<String>,
}

/// A song in the local collection, as far as its cover goes.
#[derive(Debug, Clone)]
pub struct TrackDto {
    pub source: String,
    pub cover_url: String,
}

/// Where a song can be played from, or why it cannot.
#[derive(Debug, Clone)]
pub struct PlayableUrlDto {
    pub song_id: String,
    pub url: Option<String>,
    pub video_url: Option<String>,
    pub unavailable: bool,
    pub reason: Option<String>,
    pub debug: Option<String>,
    pub audio_candidates: Vec<String>,
    pub video_candidates: Vec<String>,
}

/// A playlist of any source.
#[derive(Debug, Clone)]
pub struct SourcePlaylistDto {
    pub id: String,
    pub name: String,
    pub description: String,
    pub source: String,
    pub tracks: Vec<SourceSongDto>,
}

// ---------------------------------------------------------------------------
// Their meaning
// ---------------------------------------------------------------------------
/// What a `ResolvedQQMusicSourceConfig` means.
pub struct ConfigView {
    pub enabled: bool,
    pub base_url: Seq<char>,
    pub token: Option<Seq<char>>,
}

impl View for ResolvedQQMusicSourceConfig {
    type V = ConfigView;

    open spec fn view(&self) -> ConfigView {
        ConfigView {
            enabled: self.enabled,
            base_url: self.base_url@,
            token: text::opt_view(self.token),
        }
    }
}

/// What a `QQMusicSourceConfigDto` means.
pub struct SourceConfigView {
    pub enabled: bool,
    pub base_url: Seq<char>,
    pub has_token: bool,
    pub masked_token: Seq<char>,
}

impl View for QQMusicSourceConfigDto {
    type V = SourceConfigView;

    open spec fn view(&self) -> SourceConfigView {
        SourceConfigView {
            enabled: self.enabled,
            base_url: self.base_url@,
            has_token: self.has_token,
            masked_token: self.masked_token@,
        }
    }
}

/// What a `QQMusicQrLoginDto` means.
pub struct QrLoginView {
    pub url: Seq<char>,
    pub key: Seq<char>,
    pub cookies: Seq<char>,
}

impl View for QQMusicQrLoginDto {
    type V = QrLoginView;

    open spec fn view(&self) -> QrLoginView {
        QrLoginView { url: self.url@, key: self.key@, cookies: self.cookies@ }
    }
}

/// What a `QQMusicQrCheckDto` means.
pub struct QrCheckView {
    pub status: Seq<char>,
    pub cookie: Option<Seq<char>>,
    pub message: Option<Seq<char>>,
}

impl View for QQMusicQrCheckDto {
    type V = QrCheckView;

    open spec fn view(&self) -> QrCheckView {
        QrCheckView {
            status: self.status@,
            cookie: text::opt_view(self.cookie),
            message: text::opt_view(self.message),
        }
    }
}

/// What a `QQMusicUserPlaylistDto` means.
pub struct UserPlaylistView {
    pub id: Seq<char>,
    pub name: Seq<char>,
    pub track_count: u32,
    pub creator_name: Seq<char>,
    pub subscribed: bool,
    pub cover_url: Seq<char>,
    pub description: Seq<char>,
}

impl View for QQMusicUserPlaylistDto {
    type V = UserPlaylistView;

    open spec fn view(&self) -> UserPlaylistView {
        UserPlaylistView {
            id: self.id@,
            name: self.name@,
            track_count: self.track_count,
            creator_name: self.creator_name@,
            subscribed: self.subscribed,
            cover_url: self.cover_url@,
            description: self.description@,
        }
    }
}

/// What a `QQMusicVipStatusDto` means.
pub struct VipView {
    pub is_member: bool,
    pub level: Option<Seq<char>>,
    pub message: Seq<char>,
    pub membership_known: bool,
}

impl View for QQMusicVipStatusDto {
    type V = VipView;

    open spec fn view(&self) -> VipView {
        VipView {
            is_member: self.is_member,
            level: text::opt_view(self.level),
            message: self.message@,
            membership_known: self.membership_known,
        }
    }
}

/// What a `QQMusicUserProfileDto` means.
pub struct ProfileView {
    pub logged_in: bool,
    pub nickname: Option<Seq<char>>,
    pub user_id: Option<Seq<char>>,
    pub avatar_url: Option<Seq<char>>,
    pub vip: Option<VipView>,
}

/// What a membership that may be absent means.
pub open spec fn opt_vip(vip: Option<QQMusicVipStatusDto>) -> Option<VipView> {
    match vip {
        Some(v) => Some(v@),
        None => None,
    }
}

impl View for QQMusicUserProfileDto {
    type V = ProfileView;

    open spec fn view(&self) -> ProfileView {
        ProfileView {
            logged_in: self.logged_in,
            nickname: text::opt_view(self.nickname),
            user_id: text::opt_view(self.user_id),
            avatar_url: text::opt_view(self.avatar_url),
            vip: opt_vip(self.vip),
        }
    }
}

/// What a `SourceSongDto` means.
pub struct SongView {
    pub id: Seq<char>,
    pub source: Option<Seq<char>>,
    pub title: Seq<char>,
    pub artist: Seq<char>,
    pub album: Seq<char>,
    pub duration_seconds: u64,
    pub cover_url: Seq<char>,
    pub playable_url: Option<Seq<char>>,
    pub unavailable: bool,
    pub unavailable_reason: Option<Seq<char>>,
    pub bvid: Option<Seq<char>>,
    pub aid: Option<u64>,
    pub cid: Option<u64>,
    pub uploader: Option<Seq<char>>,
    pub danmaku_count: Option<u64>,
    pub play_count: Option<u64>,
    pub page_index: Option<u32>,
    pub source_url: Option<Seq<char>>,
}

impl View for SourceSongDto {
    type V = SongView;

    open spec fn view(&self) -> SongView {
        SongView {
            id: self.id@,
            source: text::opt_view(self.source),
            title: self.title@,
            artist: self.artist@,
            album: self.album@,
            duration_seconds: self.duration_seconds,
            cover_url: self.cover_url@,
            playable_url: text::opt_view(self.playable_url),
            unavailable: self.unavailable,
            unavailable_reason: text::opt_view(self.unavailable_reason),
            bvid: text::opt_view(self.bvid),
            aid: self.aid,
            cid: self.cid,
            uploader: text::opt_view(self.uploader),
            danmaku_count: self.danmaku_count,
            play_count: self.play_count,
            page_index: self.page_index,
            source_url: text::opt_view(self.source_url),
        }
    }
}

/// What the songs mean, in order.
pub open spec fn song_views(v: Seq<SourceSongDto>) -> Seq<SongView> {
    Seq::new(v.len(), |i: int| v[i]@)
}

/// What a `PlayableUrlDto` means.
pub struct PlayableView {
    pub song_id: Seq<char>,
    pub url: Option<Seq<char>>,
    pub video_url: Option<Seq<char>>,
    pub unavailable: bool,
    pub reason: Option<Seq<char>>,
    pub debug: Option<Seq<char>>,
    pub audio_candidates: Seq<Seq<char>>,
    pub video_candidates: Seq<Seq<char>>,
}

impl View for PlayableUrlDto {
    type V = PlayableView;

    open spec fn view(&self) -> PlayableView {
        PlayableView {
            song_id: self.song_id@,
            url: text::opt_view(self.url),
            video_url: text::opt_view(self.video_url),
            unavailable: self.unavailable,
            reason: text::opt_view(self.reason),
            debug: text::opt_view(self.debug),
            audio_candidates: text::views(self.audio_candidates@),
            video_candidates: text::views(self.video_candidates@),
        }
    }
}

/// What a `SourcePlaylistDto` means.
pub struct PlaylistView {
    pub id: Seq<char>,
    pub name: Seq<char>,
    pub description: Seq<char>,
    pub source: Seq<char>,
    pub tracks: Seq<SongView>,
}

impl View for SourcePlaylistDto {
    type V = PlaylistView;

    open spec fn view(&self) -> PlaylistView {
        PlaylistView {
            id: self.id@,
            name: self.name@,
            description: self.description@,
            source: self.source@,
            tracks: song_views(self.tracks@),
        }
    }
}

/// What a result with an error text means, where its value has a view.
pub open spec fn outcome<T: View>(r: Result<T, String>) -> Result<T::V, Seq<char>> {
    match r {
        Ok(v) => Ok(v@),
        Err(e) => Err(e@),
    }
}

/// What a list of songs or an error text means.
pub open spec fn songs_outcome(r: Result<Vec<SourceSongDto>, String>) -> Result<
    Seq<SongView>,
    Seq<char>,
> {
    match r {
        Ok(v) => Ok(song_views(v@)),
        Err(e) => Err(e@),
    }
}

} // verus!
