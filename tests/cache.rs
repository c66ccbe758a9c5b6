use app_index::app::App;
use app_index::cache::AppCache;
use app_index::dir_times::{DirTimes, ModTime};
use app_index::error::AppError;
use std::time::{SystemTime, UNIX_EPOCH};

fn now() -> ModTime {
    let d = SystemTime::now().duration_since(UNIX_EPOCH).unwrap();
    ModTime { secs: d.as_secs() as i64, nanos: d.subsec_nanos() }
}

fn times(entries: &[(&str, ModTime)]) -> DirTimes {
    let mut t = DirTimes::new();
    for (dir, time) in entries {
        t.insert(dir.to_string(), *time);
    }
    t
}

fn app(name: &str, exec: &str) -> App {
    App::new(name.to_string()).with_exec(Some(exec.to_string()))
}

#[test]
fn test_cache_file_roundtrip() {
    let mut dir_mod_times = DirTimes::new();
    dir_mod_times.insert("/test/path".to_string(), now());

    let original_cache = AppCache { apps: vec![App::new("TestApp".to_string())], dir_mod_times };

    let bytes = original_cache.to_bytes();

    let read_cache = AppCache::from_bytes(&bytes).unwrap();

    assert_eq!(original_cache.apps.len(), read_cache.apps.len());
    assert_eq!(original_cache.apps[0].name, read_cache.apps[0].name);
    assert_eq!(original_cache.dir_mod_times, read_cache.dir_mod_times);
}

#[test]
fn test_is_stale_logic() {
    let dir = "/tmp/raycast_test_cache_is_stale";
    let mod_time_before = ModTime { secs: 1_700_000_000, nanos: 5 };
    let cache = AppCache { apps: vec![], dir_mod_times: times(&[(dir, mod_time_before)]) };
    assert!(!cache.is_stale(&times(&[(dir, mod_time_before)])));

    let mod_time_after = ModTime { secs: 1_700_000_000, nanos: 10_000_005 };
    assert!(cache.is_stale(&times(&[(dir, mod_time_after)])));

    let cache_updated = AppCache { apps: vec![], dir_mod_times: times(&[(dir, mod_time_after)]) };
    assert!(!cache_updated.is_stale(&times(&[(dir, mod_time_after)])));

    let cache_missing_entry = AppCache { apps: vec![], dir_mod_times: DirTimes::new() };
    assert!(cache_missing_entry.is_stale(&times(&[(dir, mod_time_after)])));
}

#[test]
fn round_trip_keeps_order_and_fields() {
    let t = ModTime { secs: 42, nanos: 7 };
    let u = ModTime { secs: 43, nanos: 0 };
    let apps = vec![
        app("Zed", "/Applications/Zed.app/Contents/MacOS/zed").with_icon_path(Some("/c/Zed.png".to_string())),
        App::new("Alpha".to_string()),
        app("Mail", "/System/Applications/Mail.app/Contents/MacOS/Mail"),
    ];
    let c = AppCache::new(apps.clone(), times(&[("/Applications", t), ("/System/Applications", u)]));
    let d = AppCache::from_bytes(&c.to_bytes()).unwrap();
    assert_eq!(d.apps, apps);
    assert_eq!(d.dir_mod_times.get(&"/Applications".to_string()), Some(t));
    assert_eq!(d.dir_mod_times.get(&"/System/Applications".to_string()), Some(u));
    assert_eq!(d.dir_mod_times.len(), 2);
}

#[test]
fn corrupt_length_is_an_error_not_a_panic() {
    // One application whose name claims u64::MAX bytes.
    let mut bytes = vec![1u8, 253];
    bytes.extend_from_slice(&[0xff; 8]);
    assert_eq!(AppCache::from_bytes(&bytes).unwrap_err(), AppError::Deserialization);
    // One application list claiming u64::MAX entries.
    let mut bytes = vec![253u8];
    bytes.extend_from_slice(&[0xff; 8]);
    assert_eq!(AppCache::from_bytes(&bytes).unwrap_err(), AppError::Deserialization);
}

#[test]
fn truncated_and_padded_bytes_are_rejected() {
    let c = AppCache::new(
        vec![app("Mail", "/System/Applications/Mail.app/Contents/MacOS/Mail")],
        times(&[("/Applications", ModTime { secs: 9, nanos: 1 })]),
    );
    let bytes = c.to_bytes();
    for cut in 0..bytes.len() {
        assert_eq!(AppCache::from_bytes(&bytes[..cut]).unwrap_err(), AppError::Deserialization);
    }
    let mut padded = bytes.clone();
    padded.push(0);
    assert_eq!(AppCache::from_bytes(&padded).unwrap_err(), AppError::Deserialization);
    assert!(AppCache::cached_apps(Some(&padded), &times(&[("/Applications", ModTime { secs: 9, nanos: 1 })])).is_none());
}

#[test]
fn times_before_the_epoch_round_trip_and_order() {
    let early = ModTime { secs: -2, nanos: 500_000_000 };
    let c = AppCache::new(vec![], times(&[("/old", early)]));
    let d = AppCache::from_bytes(&c.to_bytes()).unwrap();
    assert_eq!(d.dir_mod_times.get(&"/old".to_string()), Some(early));
    assert!(ModTime { secs: -1, nanos: 0 }.is_after(&early));
    assert!(!ModTime { secs: -2, nanos: 0 }.is_after(&early));
}

#[test]
fn garbage_bytes_are_a_deserialization_error() {
    assert_eq!(AppCache::from_bytes(&[0xff, 0xff, 0xff]).unwrap_err(), AppError::Deserialization);
    assert_eq!(AppCache::from_bytes(&[]).unwrap_err(), AppError::Deserialization);
    assert!(AppCache::cached_apps(Some(&[0xff, 0xff]), &DirTimes::new()).is_none());
}

#[test]
fn fresh_when_every_time_matches() {
    let t = ModTime { secs: 100, nanos: 1 };
    let u = ModTime { secs: 200, nanos: 2 };
    let c = AppCache::new(vec![], times(&[("/a", t), ("/b", u)]));
    assert!(!c.is_stale(&times(&[("/b", u), ("/a", t)])));
}

#[test]
fn stale_when_a_directory_is_modified() {
    let t = ModTime { secs: 100, nanos: 1 };
    let c = AppCache::new(vec![], times(&[("/a", t), ("/b", t)]));
    assert!(c.is_stale(&times(&[("/a", t), ("/b", ModTime { secs: 100, nanos: 2 })])));
    assert!(c.is_stale(&times(&[("/a", ModTime { secs: 101, nanos: 0 }), ("/b", t)])));
}

#[test]
fn older_live_time_is_not_stale() {
    let t = ModTime { secs: 100, nanos: 1 };
    let c = AppCache::new(vec![], times(&[("/a", t)]));
    assert!(!c.is_stale(&times(&[("/a", ModTime { secs: 99, nanos: 999 })])));
}

#[test]
fn stale_when_a_directory_is_removed() {
    let t = ModTime { secs: 100, nanos: 1 };
    let c = AppCache::new(vec![], times(&[("/a", t), ("/b", t)]));
    assert!(c.is_stale(&times(&[("/a", t), ("/c", t)])));
    assert!(c.is_stale(&times(&[("/a", t)])));
}

#[test]
fn stale_when_a_new_directory_appears() {
    let t = ModTime { secs: 100, nanos: 1 };
    let c = AppCache::new(vec![], times(&[("/a", t)]));
    assert!(c.is_stale(&times(&[("/a", t), ("/new", t)])));
}

#[test]
fn observations_keep_only_readable_directories() {
    let t = ModTime { secs: 5, nanos: 0 };
    let u = ModTime { secs: 6, nanos: 0 };
    let d = DirTimes::from_observations(&vec![
        ("/a".to_string(), Some(t)),
        ("/missing".to_string(), None),
        ("/a".to_string(), Some(u)),
    ]);
    assert_eq!(d.len(), 1);
    assert_eq!(d.get(&"/a".to_string()), Some(u));
    assert_eq!(d.get(&"/missing".to_string()), None);
}

#[test]
fn insert_replaces_an_existing_directory() {
    let mut d = DirTimes::new();
    d.insert("/a".to_string(), ModTime { secs: 1, nanos: 0 });
    d.insert("/b".to_string(), ModTime { secs: 2, nanos: 0 });
    d.insert("/a".to_string(), ModTime { secs: 3, nanos: 0 });
    assert_eq!(d.len(), 2);
    assert_eq!(d.get(&"/a".to_string()), Some(ModTime { secs: 3, nanos: 0 }));
}

#[test]
fn mod_time_order() {
    let a = ModTime { secs: 10, nanos: 5 };
    assert!(ModTime { secs: 10, nanos: 6 }.is_after(&a));
    assert!(ModTime { secs: 11, nanos: 0 }.is_after(&a));
    assert!(!a.is_after(&a));
    assert!(!ModTime { secs: 9, nanos: 999_999_999 }.is_after(&a));
}

#[test]
fn end_to_end_second_call_served_from_cache() {
    let t = ModTime { secs: 1_000, nanos: 0 };
    let observed = vec![("/Applications".to_string(), Some(t)), ("/System/Applications".to_string(), Some(t))];
    let live = DirTimes::from_observations(&observed);
    let mut scans = 0;
    let mut scan = || {
        scans += 1;
        vec![app("Safari", "/Applications/Safari.app/Contents/MacOS/Safari"), app("Notes", "/System/Applications/Notes.app/Contents/MacOS/Notes")]
    };

    // Empty cache directory: nothing to serve, so a full scan is made and persisted.
    let mut stored: Option<Vec<u8>> = None;
    let first = match AppCache::cached_apps(stored.as_deref(), &live) {
        Some(apps) => apps,
        None => {
            let record = AppCache::new(scan(), DirTimes::from_observations(&observed));
            stored = Some(record.to_bytes());
            record.into_apps()
        }
    };
    assert_eq!(first.len(), 2);

    // Unchanged filesystem: the same records come from the cache, with no scan.
    let second = match AppCache::cached_apps(stored.as_deref(), &live) {
        Some(apps) => apps,
        None => AppCache::new(scan(), DirTimes::new()).into_apps(),
    };
    assert_eq!(second, first);
    assert_eq!(scans, 1);

    // A modified directory sends the next call back to a scan.
    let later = DirTimes::from_observations(&vec![
        ("/Applications".to_string(), Some(ModTime { secs: 1_001, nanos: 0 })),
        ("/System/Applications".to_string(), Some(t)),
    ]);
    assert!(AppCache::cached_apps(stored.as_deref(), &later).is_none());
}
