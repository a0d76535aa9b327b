//! Handing covers and playback over to the media proxy.
use vstd::prelude::*;
use crate::dto::{PlayableUrlDto, PlayableView, SourceSongDto, TrackDto};
use crate::text::{self, text_eq};

verus! {

/// Asked about the text `t`, `proxyable` may answer `b`.
pub open spec fn may_say<P: Fn(&str) -> bool>(proxyable: P, t: Seq<char>, b: bool) -> bool {
    exists|s: &str| s@ == t && #[trigger] call_ensures(proxyable, (s,), b)
}

/// Handed the text `t` as an image, `register` may give `r`.
pub open spec fn may_register<R: Fn(&str, &str) -> Result<String, String>>(
    register: R,
    t: Seq<char>,
    r: Result<String, String>,
) -> bool {
    exists|s: &str| s@ == t && #[trigger] call_ensures(register, (s, "image"), r)
}

/// What a cover may become: what the registration gives for it where the address
/// can be proxied, and itself elsewhere.
pub open spec fn cover_becomes<P: Fn(&str) -> bool, R: Fn(&str, &str) -> Result<String, String>>(
    proxyable: P,
    register: R,
    before: String,
    after: String,
) -> bool {
    ||| may_say(proxyable, before@, false) && after == before
    ||| may_say(proxyable, before@, true) && may_register(register, before@, Ok(after))
}

/// The registration refuses a cover that can be proxied.
pub open spec fn cover_refused<P: Fn(&str) -> bool, R: Fn(&str, &str) -> Result<String, String>>(
    proxyable: P,
    register: R,
    cover: String,
    error: String,
) -> bool {
    may_say(proxyable, cover@, true) && may_register(register, cover@, Err(error))
}

/// A song of this service.
pub open spec fn is_own_song(song: SourceSongDto) -> bool {
    text::opt_view(song.source) == Some("qqmusic"@)
}

/// A song after its cover was handed over: another service's song is unchanged,
/// and of its own song only the cover can change.
pub open spec fn song_becomes<P: Fn(&str) -> bool, R: Fn(&str, &str) -> Result<String, String>>(
    proxyable: P,
    register: R,
    before: SourceSongDto,
    after: SourceSongDto,
) -> bool {
    if is_own_song(before) {
        after == (SourceSongDto { cover_url: after.cover_url, ..before }) && cover_becomes(
            proxyable,
            register,
            before.cover_url,
            after.cover_url,
        )
    } else {
        after == before
    }
}

/// Hands the covers of the songs of this service over to the media proxy. Where a
/// registration fails, the songs from that one on are left as they are.
pub fn proxy_qqmusic_search_covers<
    P: Fn(&str) -> bool,
    R: Fn(&str, &str) -> Result<String, String>,
>(proxyable: P, register: R, songs: &mut [SourceSongDto]) -> (r: Result<(), String>)
    requires
        forall|s: &str| call_requires(proxyable, (s,)),
        forall|s: &str, k: &str| call_requires(register, (s, k)),
    ensures
        final(songs)@.len() == old(songs)@.len(),
        match r {
            Ok(_) => forall|i: int|
                0 <= i < old(songs)@.len() ==> song_becomes(
                    proxyable,
                    register,
                    old(songs)@[i],
                    #[trigger] final(songs)@[i],
                ),
            Err(e) => exists|n: int|
                0 <= n < old(songs)@.len() && is_own_song(#[trigger] old(songs)@[n])
                    && cover_refused(proxyable, register, old(songs)@[n].cover_url, e) && (forall|
                    i: int,
                |
                    0 <= i < n ==> song_becomes(
                        proxyable,
                        register,
                        old(songs)@[i],
                        #[trigger] final(songs)@[i],
                    )) && (forall|i: int|
                    n <= i < old(songs)@.len() ==> #[trigger] final(songs)@[i] == old(songs)@[i]),
        },
{
    let mut i: usize = 0;
    while i < songs.len()
        invariant
            i <= songs@.len(),
            songs@.len() == old(songs)@.len(),
            forall|s: &str| call_requires(proxyable, (s,)),
            forall|s: &str, k: &str| call_requires(register, (s, k)),
            forall|k: int|
                0 <= k < i ==> song_becomes(
                    proxyable,
                    register,
                    old(songs)@[k],
                    #[trigger] songs@[k],
                ),
            forall|k: int| i <= k < songs@.len() ==> #[trigger] songs@[k] == old(songs)@[k],
        decreases songs@.len() - i,
    {
        let own: bool = match &songs[i].source {
            Some(source) => text_eq(source.as_str(), "qqmusic"),
            None => false,
        };
        if own {
            if proxyable(songs[i].cover_url.as_str()) {
                match register(songs[i].cover_url.as_str(), "image") {
                    Ok(url) => {
                        songs[i].cover_url = url;
                    },
                    Err(e) => {
                        proof {
                            assert(is_own_song(old(songs)@[i as int]));
                        }
                        return Err(e);
                    },
                }
            }
        }
        i = i + 1;
    }
    Ok(())
}

/// A track of this service.
pub open spec fn is_own_track(track: TrackDto) -> bool {
    track.source@ == "qqmusic"@
}

/// A track after its cover was handed over: another service's track is unchanged,
/// and of its own track only the cover can change.
pub open spec fn track_becomes<P: Fn(&str) -> bool, R: Fn(&str, &str) -> Result<String, String>>(
    proxyable: P,
    register: R,
    before: TrackDto,
    after: TrackDto,
) -> bool {
    if is_own_track(before) {
        after == (TrackDto { cover_url: after.cover_url, ..before }) && cover_becomes(
            proxyable,
            register,
            before.cover_url,
            after.cover_url,
        )
    } else {
        after == before
    }
}

/// Hands the covers of the tracks of this service over to the media proxy. Where a
/// registration fails, the tracks from that one on are left as they are.
pub fn proxy_qqmusic_track_covers<
    P: Fn(&str) -> bool,
    R: Fn(&str, &str) -> Result<String, String>,
>(proxyable: P, register: R, tracks: &mut [TrackDto]) -> (r: Result<(), String>)
    requires
        forall|s: &str| call_requires(proxyable, (s,)),
        forall|s: &str, k: &str| call_requires(register, (s, k)),
    ensures
        final(tracks)@.len() == old(tracks)@.len(),
        match r {
            Ok(_) => forall|i: int|
                0 <= i < old(tracks)@.len() ==> track_becomes(
                    proxyable,
                    register,
                    old(tracks)@[i],
                    #[trigger] final(tracks)@[i],
                ),
            Err(e) => exists|n: int|
                0 <= n < old(tracks)@.len() && is_own_track(#[trigger] old(tracks)@[n])
                    && cover_refused(proxyable, register, old(tracks)@[n].cover_url, e) && (forall|
                    i: int,
                |
                    0 <= i < n ==> track_becomes(
                        proxyable,
                        register,
                        old(tracks)@[i],
                        #[trigger] final(tracks)@[i],
                    )) && (forall|i: int|
                    n <= i < old(tracks)@.len() ==> #[trigger] final(tracks)@[i] == old(tracks)@[i]),
        },
{
    let mut i: usize = 0;
    while i < tracks.len()
        invariant
            i <= tracks@.len(),
            tracks@.len() == old(tracks)@.len(),
            forall|s: &str| call_requires(proxyable, (s,)),
            forall|s: &str, k: &str| call_requires(register, (s, k)),
            forall|k: int|
                0 <= k < i ==> track_becomes(
                    proxyable,
                    register,
                    old(tracks)@[k],
                    #[trigger] tracks@[k],
                ),
            forall|k: int| i <= k < tracks@.len() ==> #[trigger] tracks@[k] == old(tracks)@[k],
        decreases tracks@.len() - i,
    {
        if text_eq(tracks[i].source.as_str(), "qqmusic") {
            if proxyable(tracks[i].cover_url.as_str()) {
                match register(tracks[i].cover_url.as_str(), "image") {
                    Ok(url) => {
                        tracks[i].cover_url = url;
                    },
                    Err(e) => {
                        proof {
                            assert(is_own_track(old(tracks)@[i as int]));
                        }
                        return Err(e);
                    },
                }
            }
        }
        i = i + 1;
    }
    Ok(())
}

/// The addresses that a playback can be tried with, in order.
pub open spec fn candidates_of(p: PlayableView) -> Seq<Seq<char>> {
    match p.url {
        Some(url) => seq![url] + p.audio_candidates,
        None => p.audio_candidates,
    }
}

/// The playback that has nothing to try: it is unavailable.
pub open spec fn without_candidates(p: PlayableView) -> PlayableView {
    if p.unavailable {
        p
    } else {
        PlayableView { unavailable: true, reason: Some("no_copyright"@), ..p }
    }
}

/// The registration is handed the addresses given, as audio, and gives `r`.
pub open spec fn registered<R: Fn(Vec<String>, &str) -> Result<String, String>>(
    register: R,
    candidates: Seq<Seq<char>>,
    r: Result<String, String>,
) -> bool {
    exists|v: Vec<String>|
        text::views(#[trigger] v@) == candidates && call_ensures(register, (v, "audio"), r)
}

/// Hands a playback over to the media proxy: all its addresses become one. Where
/// there is none, it is unavailable; where the registration fails, it stays as it is.
pub fn proxy_qqmusic_playback<R: Fn(Vec<String>, &str) -> Result<String, String>>(
    register: R,
    playback: &mut PlayableUrlDto,
) -> (r: Result<(), String>)
    requires
        forall|v: Vec<String>, k: &str| call_requires(register, (v, k)),
    ensures
        candidates_of(old(playback)@).len() == 0 ==> r is Ok && final(playback)@
            == without_candidates(old(playback)@),
        candidates_of(old(playback)@).len() > 0 ==> match r {
            Ok(_) => final(playback).url is Some && registered(
                register,
                candidates_of(old(playback)@),
                Ok::<String, String>(final(playback).url->0),
            ) && final(playback)@ == (PlayableView {
                url: final(playback)@.url,
                audio_candidates: seq![],
                ..old(playback)@
            }),
            Err(e) => registered(register, candidates_of(old(playback)@), Err::<String, String>(e))
                && final(playback)@ == old(playback)@,
        },
{
    let ghost before = playback@;
    let mut candidates: Vec<String> = Vec::new();
    match &playback.url {
        Some(url) => candidates.push(url.clone()),
        None => {},
    }
    let ghost head = text::views(candidates@);
    let ghost all = text::views(playback.audio_candidates@);
    proof {
        assert(head + all.take(0) =~= head);
    }
    for i in 0..playback.audio_candidates.len()
        invariant
            all == text::views(playback.audio_candidates@),
            text::views(candidates@) == head + all.take(i as int),
    {
        let ghost so_far = text::views(candidates@);
        candidates.push(playback.audio_candidates[i].clone());
        proof {
            assert(text::views(candidates@) =~= so_far.push(all[i as int]));
            assert(so_far.push(all[i as int]) =~= head + all.take(i + 1));
        }
    }
    proof {
        assert(all.take(all.len() as int) =~= all);
        assert(text::views(candidates@) =~= candidates_of(before));
    }
    if candidates.len() == 0 {
        if !playback.unavailable {
            playback.unavailable = true;
            playback.reason = Some("no_copyright".to_string());
        }
        return Ok(());
    }
    let ghost handed = candidates;
    match register(candidates, "audio") {
        Ok(url) => {
            proof {
                assert(text::views(handed@) == candidates_of(before));
            }
            playback.url = Some(url);
            playback.audio_candidates = Vec::new();
            proof {
                assert(text::views(playback.audio_candidates@) =~= seq![]);
            }
            Ok(())
        },
        Err(e) => {
            proof {
                assert(text::views(handed@) == candidates_of(before));
            }
            Err(e)
        },
    }
}

/// A playback that was handed over has one address and no other candidate, or is
/// unavailable with a reason where it had none and was not.
pub proof fn law_empty_playback_is_unavailable(p: PlayableView)
    requires
        candidates_of(p).len() == 0,
    ensures
        without_candidates(p).unavailable,
        !p.unavailable ==> without_candidates(p).reason == Some("no_copyright"@),
        p.unavailable ==> without_candidates(p) == p,
{
}

/// Of a song of this service whose cover can be proxied, the cover becomes what the
/// registration gives for it; one whose cover cannot be stays as it is, and so does a
/// song of another service. Nothing else of a song changes.
pub proof fn law_only_own_covers_change<
    P: Fn(&str) -> bool,
    R: Fn(&str, &str) -> Result<String, String>,
>(proxyable: P, register: R, before: SourceSongDto, after: SourceSongDto)
    requires
        song_becomes(proxyable, register, before, after),
    ensures
        ({
            let own = before.source matches Some(s) && s@ == "qqmusic"@;
            &&& !own ==> after == before
            &&& own && !may_say(proxyable, before.cover_url@, true) ==> after.cover_url
                == before.cover_url
            &&& own && !may_say(proxyable, before.cover_url@, false) ==> may_register(
                register,
                before.cover_url@,
                Ok(after.cover_url),
            )
            &&& after.id == before.id && after.title == before.title && after.artist
                == before.artist && after.album == before.album && after.source == before.source
            &&& after.duration_seconds == before.duration_seconds && after.playable_url
                == before.playable_url && after.source_url == before.source_url
        }),
{
}

/// The same holds of tracks.
pub proof fn law_only_own_track_covers_change<
    P: Fn(&str) -> bool,
    R: Fn(&str, &str) -> Result<String, String>,
>(proxyable: P, register: R, before: TrackDto, after: TrackDto)
    requires
        track_becomes(proxyable, register, before, after),
    ensures
        ({
            let own = before.source@ == "qqmusic"@;
            &&& !own ==> after == before
            &&& own && !may_say(proxyable, before.cover_url@, true) ==> after.cover_url
                == before.cover_url
            &&& own && !may_say(proxyable, before.cover_url@, false) ==> may_register(
                register,
                before.cover_url@,
                Ok(after.cover_url),
            )
            &&& after == (TrackDto { cover_url: after.cover_url, ..before })
        }),
{
}

/// The addresses that a playback is handed over with are all that it has, its own first.
pub proof fn law_playback_is_handed_over_whole(p: PlayableView)
    ensures
        p.url matches Some(url) ==> candidates_of(p).len() == p.audio_candidates.len() + 1
            && candidates_of(p)[0] == url && forall|i: int|
            0 <= i < p.audio_candidates.len() ==> candidates_of(p)[i + 1]
                == #[trigger] p.audio_candidates[i],
        p.url is None ==> candidates_of(p) == p.audio_candidates,
{
}

/// Covers are registered as images, and the addresses of a playback as audio.
pub proof fn law_media_are_registered_by_kind<
    R: Fn(&str, &str) -> Result<String, String>,
    A: Fn(Vec<String>, &str) -> Result<String, String>,
>(register: R, hand_over: A, t: Seq<char>, urls: Seq<Seq<char>>, r: Result<String, String>)
    ensures
        may_register(register, t, r) ==> exists|s: &str|
            s@ == t && #[trigger] call_ensures(register, (s, "image"), r),
        registered(hand_over, urls, r) ==> exists|v: Vec<String>|
            text::views(#[trigger] v@) == urls && call_ensures(hand_over, (v, "audio"), r),
{
}

} // verus!
