//! Names and addresses of the service.
use vstd::prelude::*;

verus! {

pub const QQMUSIC_KEYRING_SERVICE: &'static str = "ome.music.source.qqmusic";

pub const QQMUSIC_KEYRING_ACCOUNT: &'static str = "local";

pub const QQMUSIC_DEFAULT_BASE_URL: &'static str = "https://c.y.qq.com";

pub const QQMUSIC_U_BASE_URL: &'static str = "https://u.y.qq.com";

pub const QQMUSIC_REFERER: &'static str = "https://y.qq.com/portal/player.html";

pub const QQMUSIC_UA: &'static str =
    "Mozilla/5.0 (Windows NT 10.0; Win64; x64) AppleWebKit/537.36 (KHTML, like Gecko) Chrome/131.0.0.0 Safari/537.36";

/// The endpoint that takes a JSON request in its query.
pub const QQMUSIC_MUSICU_URL: &'static str = "https://u.y.qq.com/cgi-bin/musicu.fcg";

/// For each quality, the prefix and the extension of the file that holds it. The
/// prefix names an encoding, not a bit rate.
pub const QQMUSIC_QUALITY_MAP: [(&'static str, &'static str, &'static str); 5] = [
    ("standard", "C400", "m4a"),
    ("higher", "M500", "mp3"),
    ("exhigh", "M800", "mp3"),
    ("lossless", "F000", "flac"),
    ("hires", "RS01", "flac"),
];

/// What the HTTP client says of a request to something that is no web address.
pub const NO_ADDRESS_ERROR: &'static str = "builder error";

/// The endpoint for requests in JSON is one of the second host of the service, which
/// differs from the one for other requests. Credentials are stored under one name.
pub proof fn law_service_has_its_addresses()
    ensures
        QQMUSIC_MUSICU_URL@ == QQMUSIC_U_BASE_URL@ + "/cgi-bin/musicu.fcg"@,
        QQMUSIC_U_BASE_URL@ == "https://u.y.qq.com"@,
        QQMUSIC_DEFAULT_BASE_URL@ == "https://c.y.qq.com"@,
        QQMUSIC_REFERER@ == "https://y.qq.com/portal/player.html"@,
        QQMUSIC_KEYRING_SERVICE@ == "ome.music.source.qqmusic"@,
        QQMUSIC_KEYRING_ACCOUNT@ == "local"@,
        NO_ADDRESS_ERROR@ == "builder error"@,
{
    reveal_strlit("https://u.y.qq.com/cgi-bin/musicu.fcg");
    reveal_strlit("https://u.y.qq.com");
    reveal_strlit("/cgi-bin/musicu.fcg");
    assert(QQMUSIC_MUSICU_URL@ =~= QQMUSIC_U_BASE_URL@ + "/cgi-bin/musicu.fcg"@);
}

} // verus!
