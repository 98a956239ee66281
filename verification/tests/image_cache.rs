use std::path::PathBuf;

use nocturned::image_cache::{cache_file_name, ImageCache};

#[test]
fn artwork_urls_share_one_cache_file() {
    let urls = [
        "https://pickasso.spotifycdn.com/image/artwork/en",
        "https://pickasso.spotifycdn.com/image/artwork",
        "https://i.scdn.co/image/artwork",
    ];
    for url in urls {
        assert_eq!(cache_file_name(url), "artwork");
    }
}

#[test]
fn locale_suffixes_are_only_skipped_on_spotify_cdn() {
    assert_eq!(cache_file_name("https://i.scdn.co/image/artwork/en"), "en");
    assert_eq!(cache_file_name("https://pickasso.spotifycdn.com/image/artwork/long"), "long");
    assert_eq!(cache_file_name("spotifycdn.com/en"), "spotifycdn.com");
    assert_eq!(cache_file_name("spotifycdn.com"), "spotifycdn.com");
    assert_eq!(cache_file_name("plain"), "plain");
    assert_eq!(cache_file_name("https://i.scdn.co/image/"), "");
}

#[test]
fn cache_paths_live_in_the_cache_directory() {
    let cache = ImageCache::with_dir(PathBuf::from("/tmp/cache-root"));
    assert_eq!(cache.dir(), &PathBuf::from("/tmp/cache-root"));
    assert_eq!(
        cache.get_cache_path("https://pickasso.spotifycdn.com/image/artwork/en"),
        PathBuf::from("/tmp/cache-root/artwork")
    );
}
