use vstd::prelude::*;
use crate::app::App;
use crate::dir_times::{DirTimes, ModTime, entries_map};
use crate::error::AppError;

verus! {

/// bincode's encoding error, carried opaquely out of `encode_rows`.
#[verifier::external_type_specification]
#[verifier::external_body]
pub struct ExEncodeError(bincode::error::EncodeError);

/// bincode's decoding error, carried opaquely out of `decode_rows`.
#[verifier::external_type_specification]
#[verifier::external_body]
pub struct ExDecodeError(bincode::error::DecodeError);

/// An application as it is stored: name, executable path, icon path.
pub type AppRow = (String, Option<String>, Option<String>);

/// A directory time as it is stored: path, seconds, nanoseconds.
pub type DirRow = (String, i64, u32);

/// The most bytes of in-memory size that decoding may claim. bincode checks
/// every length it reads against it before allocating, so a corrupt length
/// is an error and not an allocation.
pub const DECODE_LIMIT: usize = 67108864;

/// The cache bytes are short enough to decode within `DECODE_LIMIT`. Decoding
/// these rows claims at most 28 bytes of in-memory size per encoded byte.
pub open spec fn fits_decode_limit(bytes: Seq<u8>) -> bool {
    bytes.len() * 32 <= DECODE_LIMIT
}

/// `bytes` is a strict prefix of `whole`, as a partly written file is.
pub open spec fn strict_prefix(bytes: Seq<u8>, whole: Seq<u8>) -> bool {
    bytes.len() < whole.len() && whole.subrange(0, bytes.len() as int) == bytes
}

/// The bytes that bincode's standard configuration writes for the pair
/// `(apps, dirs)`.
pub uninterp spec fn cache_encoding(apps: Seq<AppRow>, dirs: Seq<DirRow>) -> Seq<u8>;

/// What bincode's standard configuration, limited to `DECODE_LIMIT`, decodes
/// from the start of `bytes` as a pair `(apps, dirs)`, with the number of
/// bytes consumed; `None` where decoding fails.
pub uninterp spec fn cache_decoding(bytes: Seq<u8>) -> Option<(Seq<AppRow>, Seq<DirRow>, nat)>;

/// Relies on `bincode::encode_to_vec` with `bincode::config::standard()`:
/// what it writes for a value depends on that value alone, and encoding into
/// a `Vec` cannot fail, since its writer always succeeds and strings,
/// options, integers, vectors and tuples fail only through the writer.
#[verifier::external_body]
fn encode_rows(apps: &Vec<AppRow>, dirs: &Vec<DirRow>) -> (r: Result<Vec<u8>, bincode::error::EncodeError>)
    ensures
        r is Ok,
        r matches Ok(b) ==> b@ == cache_encoding(apps@, dirs@),
{
    bincode::encode_to_vec((apps, dirs), bincode::config::standard())
}

/// The decoder's result on `bytes`, as `decode_rows` promises it: the
/// encoding of some rows that fits the limit decodes to those rows with every
/// byte consumed, and a strict prefix of any encoding fails.
pub open spec fn decodes_encoded(
    bytes: Seq<u8>,
    r: Result<((Vec<AppRow>, Vec<DirRow>), usize), bincode::error::DecodeError>,
) -> bool {
    &&& forall|apps: Seq<AppRow>, dirs: Seq<DirRow>|
        #[trigger] cache_encoding(apps, dirs) == bytes && fits_decode_limit(bytes) ==> (r matches Ok(
            (rows, n),
        ) && rows.0@ == apps && rows.1@ == dirs && n == bytes.len())
    &&& forall|apps: Seq<AppRow>, dirs: Seq<DirRow>|
        strict_prefix(bytes, #[trigger] cache_encoding(apps, dirs)) ==> r is Err
}

/// Relies on `bincode::decode_from_slice` with
/// `bincode::config::standard().with_limit::<DECODE_LIMIT>()`, whose byte
/// format is that of `standard()`. Decoding is deterministic and reads left
/// to right; every length read is checked against the limit before anything
/// is allocated, so it does not panic. The bytes that `encode_to_vec` wrote
/// for a value decode to that value, consuming all of them, when the claims
/// stay within the limit. A strict prefix of an encoding runs out of input
/// and fails.
#[verifier::external_body]
fn decode_rows(bytes: &[u8]) -> (r: Result<((Vec<AppRow>, Vec<DirRow>), usize), bincode::error::DecodeError>)
    ensures
        r matches Ok((rows, n)) ==> cache_decoding(bytes@) == Some((rows.0@, rows.1@, n as nat)),
        r is Err ==> cache_decoding(bytes@) is None,
        decodes_encoded(bytes@, r),
{
    bincode::decode_from_slice(bytes, bincode::config::standard().with_limit::<DECODE_LIMIT>())
}

/// What the bytes of a cache file hold: the rows decoded from them, when
/// decoding succeeds and consumes every byte.
pub open spec fn decoded(bytes: Seq<u8>) -> Option<(Seq<AppRow>, Seq<DirRow>)> {
    match cache_decoding(bytes) {
        Some((apps, dirs, n)) => if n == bytes.len() {
            Some((apps, dirs))
        } else {
            None
        },
        None => None,
    }
}

pub open spec fn app_row(a: App) -> AppRow {
    (a.name, a.executable_path, a.icon_path)
}

pub open spec fn app_rows(s: Seq<App>) -> Seq<AppRow> {
    s.map_values(|a: App| app_row(a))
}

pub open spec fn dir_row(e: (String, ModTime)) -> DirRow {
    (e.0, e.1.secs, e.1.nanos)
}

pub open spec fn dir_rows(s: Seq<(String, ModTime)>) -> Seq<DirRow> {
    s.map_values(|e: (String, ModTime)| dir_row(e))
}

pub open spec fn row_entry(r: DirRow) -> (String, ModTime) {
    (r.0, ModTime { secs: r.1, nanos: r.2 })
}

/// The directory times that stored rows denote; a later row for a directory
/// overrides an earlier one.
pub open spec fn rows_map(dirs: Seq<DirRow>) -> Map<Seq<char>, ModTime> {
    entries_map(dirs.map_values(|r: DirRow| row_entry(r)))
}

/// Whatever `from_bytes` returned on `bytes`: where `bytes` are the encoding
/// of some rows and fit the decoding limit, it is a record holding those
/// applications and directory times.
pub open spec fn reads_back(bytes: Seq<u8>, r: Result<AppCache, AppError>) -> bool {
    forall|apps: Seq<AppRow>, dirs: Seq<DirRow>|
        #[trigger] cache_encoding(apps, dirs) == bytes && fits_decode_limit(bytes) ==> (r matches Ok(c)
            && app_rows(c.apps@) == apps && c.dir_mod_times@ == rows_map(dirs))
}

/// What `cached_apps` serves from `cached` against the live times `live`:
/// nothing when no bytes were read or they do not decode, nothing when the
/// decoded record is stale, else the decoded applications.
pub open spec fn serves(cached: Option<Seq<u8>>, live: Map<Seq<char>, ModTime>, r: Option<Vec<App>>) -> bool {
    match cached {
        None => r is None,
        Some(b) => match decoded(b) {
            None => r is None,
            Some((apps, dirs)) => if stale(rows_map(dirs), live) {
                r is None
            } else {
                r matches Some(a) && app_rows(a@) == apps
            },
        },
    }
}

/// For every well-formed record whose encoding is `bytes` and fits the
/// decoding limit: `r` is nothing when that record is stale against `live`,
/// else that record's applications.
pub open spec fn serves_encoded(bytes: Seq<u8>, live: Map<Seq<char>, ModTime>, r: Option<Vec<App>>) -> bool {
    forall|c: AppCache|
        #![trigger c.encoding()]
        c.wf() && bytes == c.encoding() && fits_decode_limit(bytes) ==> (if stale(c.dir_mod_times@, live) {
            r is None
        } else {
            r matches Some(a) && a@ == c.apps@
        })
}

/// Whether a persisted snapshot of directory times no longer describes the
/// live one: a persisted directory is gone or has been modified since, or
/// the number of directories differs.
pub open spec fn stale(persisted: Map<Seq<char>, ModTime>, live: Map<Seq<char>, ModTime>) -> bool {
    ||| exists|d: Seq<char>|
        #[trigger] persisted.contains_key(d) && (!live.contains_key(d) || live[d].later_than(
            persisted[d],
        ))
    ||| live.len() != persisted.len()
}

fn clone_opt(o: &Option<String>) -> (r: Option<String>)
    ensures
        r == *o,
{
    match o {
        Some(s) => Some(s.clone()),
        None => None,
    }
}

/// The persisted snapshot: the applications found by a scan and the
/// modification times of the directories it scanned.
#[derive(Clone, Debug, PartialEq, Eq)]
pub struct AppCache {
    pub apps: Vec<App>,
    pub dir_mod_times: DirTimes,
}

impl AppCache {
    pub open spec fn wf(&self) -> bool {
        self.dir_mod_times.wf()
    }

    /// The bytes that `to_bytes` writes for this record.
    pub open spec fn encoding(&self) -> Seq<u8> {
        cache_encoding(app_rows(self.apps@), dir_rows(self.dir_mod_times.entries@))
    }

    /// A record of a scan's applications and directory times.
    pub fn new(apps: Vec<App>, dir_mod_times: DirTimes) -> (r: AppCache)
        ensures
            r.apps == apps,
            r.dir_mod_times == dir_mod_times,
    {
        AppCache { apps, dir_mod_times }
    }

    /// The applications of the record, giving the record up.
    pub fn into_apps(self) -> (r: Vec<App>)
        ensures
            r == self.apps,
    {
        self.apps
    }

    /// The record in its binary form.
    pub fn to_bytes(&self) -> (r: Vec<u8>)
        ensures
            r@ == self.encoding(),
    {
        let mut apps: Vec<AppRow> = Vec::new();
        for i in 0..self.apps.len()
            invariant
                apps@ == app_rows(self.apps@.subrange(0, i as int)),
        {
            let a = &self.apps[i];
            apps.push((a.name.clone(), clone_opt(&a.executable_path), clone_opt(&a.icon_path)));
            proof {
                assert(app_rows(self.apps@.subrange(0, i + 1)) =~= app_rows(
                    self.apps@.subrange(0, i as int),
                ).push(app_row(self.apps@[i as int])));
            }
        }
        let entries = &self.dir_mod_times.entries;
        let mut dirs: Vec<DirRow> = Vec::new();
        for i in 0..entries.len()
            invariant
                dirs@ == dir_rows(entries@.subrange(0, i as int)),
        {
            let e = &entries[i];
            dirs.push((e.0.clone(), e.1.secs, e.1.nanos));
            proof {
                assert(dir_rows(entries@.subrange(0, i + 1)) =~= dir_rows(
                    entries@.subrange(0, i as int),
                ).push(dir_row(entries@[i as int])));
            }
        }
        proof {
            assert(self.apps@.subrange(0, self.apps.len() as int) =~= self.apps@);
            assert(entries@.subrange(0, entries.len() as int) =~= entries@);
        }
        match encode_rows(&apps, &dirs) {
            Ok(b) => b,
            Err(_) => {
                proof {
                    assert(false);
                }
                Vec::new()
            },
        }
    }

    /// A record from stored rows.
    pub fn from_rows(apps: Vec<AppRow>, dirs: Vec<DirRow>) -> (r: AppCache)
        ensures
            r.wf(),
            app_rows(r.apps@) == apps@,
            r.dir_mod_times@ == rows_map(dirs@),
    {
        let mut list: Vec<App> = Vec::new();
        for i in 0..apps.len()
            invariant
                app_rows(list@) == apps@.subrange(0, i as int),
        {
            let row = &apps[i];
            let a = App { name: row.0.clone(), executable_path: clone_opt(&row.1), icon_path: clone_opt(&row.2) };
            let ghost before = list@;
            assert(app_row(a) == apps@[i as int]);
            list.push(a);
            proof {
                assert(list@ == before.push(a));
                assert(app_rows(before.push(a)) =~= app_rows(before).push(app_row(a)));
                assert(app_rows(list@) =~= apps@.subrange(0, i + 1));
            }
        }
        let mut times = DirTimes::new();
        let ghost es = dirs@.map_values(|r: DirRow| row_entry(r));
        for i in 0..dirs.len()
            invariant
                times.wf(),
                es == dirs@.map_values(|r: DirRow| row_entry(r)),
                times@ == entries_map(es.subrange(0, i as int)),
        {
            let row = &dirs[i];
            times.insert(row.0.clone(), ModTime { secs: row.1, nanos: row.2 });
            proof {
                assert(es.subrange(0, i + 1).drop_last() =~= es.subrange(0, i as int));
            }
        }
        proof {
            assert(apps@.subrange(0, apps.len() as int) =~= apps@);
            assert(es.subrange(0, dirs.len() as int) =~= es);
        }
        AppCache { apps: list, dir_mod_times: times }
    }

    /// Reads a record from its binary form. Bytes that do not decode, or that
    /// hold more than one record's encoding, are a `Deserialization` error.
    pub fn from_bytes(bytes: &[u8]) -> (r: Result<AppCache, AppError>)
        ensures
            match decoded(bytes@) {
                None => r == Err::<AppCache, AppError>(AppError::Deserialization),
                Some((apps, dirs)) => r matches Ok(c) && c.wf() && app_rows(c.apps@) == apps
                    && c.dir_mod_times@ == rows_map(dirs),
            },
            reads_back(bytes@, r),
            forall|apps: Seq<AppRow>, dirs: Seq<DirRow>|
                strict_prefix(bytes@, #[trigger] cache_encoding(apps, dirs)) ==> r is Err,
    {
        match decode_rows(bytes) {
            Ok((rows, n)) => {
                if n == bytes.len() {
                    Ok(AppCache::from_rows(rows.0, rows.1))
                } else {
                    Err(AppError::Deserialization)
                }
            },
            Err(_) => Err(AppError::Deserialization),
        }
    }

    /// The record's applications when it still describes the directories as
    /// observed in `live`; `None` when a rescan is owed.
    pub fn fresh_apps(self, live: &DirTimes) -> (r: Option<Vec<App>>)
        requires
            self.wf(),
            live.wf(),
        ensures
            r == (if stale(self.dir_mod_times@, live@) {
                None
            } else {
                Some(self.apps)
            }),
    {
        if self.is_stale(live) {
            None
        } else {
            Some(self.apps)
        }
    }

    /// The applications to serve from the cached bytes, if any were read;
    /// `None` when the bytes are absent, unreadable or stale against `live`,
    /// and a full rescan is owed.
    pub fn cached_apps(cached: Option<&[u8]>, live: &DirTimes) -> (r: Option<Vec<App>>)
        requires
            live.wf(),
        ensures
            serves(
                match cached {
                    Some(b) => Some(b@),
                    None => None,
                },
                live@,
                r,
            ),
            cached matches Some(b) ==> serves_encoded(b@, live@, r),
    {
        match cached {
            None => None,
            Some(b) => {
                let read = AppCache::from_bytes(b);
                proof {
                    assert forall|c: AppCache|
                        #![trigger c.encoding()]
                        c.wf() && b@ == c.encoding() && fits_decode_limit(b@) implies read matches Ok(d) && d.apps@ == c.apps@
                            && d.dir_mod_times@ == c.dir_mod_times@ by {
                        lemma_round_trip(c, read);
                    }
                }
                match read {
                    Ok(c) => c.fresh_apps(live),
                    Err(_) => None,
                }
            },
        }
    }

    /// Whether the record no longer describes the directories as they are now;
    /// `live` holds the times observed just now.
    pub fn is_stale(&self, live: &DirTimes) -> (r: bool)
        requires
            self.wf(),
            live.wf(),
        ensures
            r == stale(self.dir_mod_times@, live@),
    {
        let entries = &self.dir_mod_times.entries;
        proof {
            crate::dir_times::lemma_entries_map_dom(entries@);
        }
        let mut i: usize = 0;
        while i < entries.len()
            invariant
                i <= entries.len(),
                self.wf(),
                live.wf(),
                entries == &self.dir_mod_times.entries,
                forall|j: int|
                    0 <= j < i ==> self.dir_mod_times@.contains_key(#[trigger] entries@[j].0@) && live@.contains_key(entries@[j].0@) && !live@[entries@[j].0@].later_than(
                        self.dir_mod_times@[entries@[j].0@],
                    ),
            decreases entries.len() - i,
        {
            let e = &entries[i];
            proof {
                crate::dir_times::lemma_entries_map_dom(entries@);
                crate::dir_times::lemma_entries_map_value(entries@, i as int);
            }
            match live.get(&e.0) {
                None => {
                    assert(self.dir_mod_times@.contains_key(entries@[i as int].0@));
                    return true;
                },
                Some(t) => {
                    if t.is_after(&e.1) {
                        assert(self.dir_mod_times@.contains_key(entries@[i as int].0@));
                        return true;
                    }
                },
            }
            i = i + 1;
        }
        proof {
            assert forall|d: Seq<char>| #[trigger] self.dir_mod_times@.contains_key(d) implies live@.contains_key(d)
                && !live@[d].later_than(self.dir_mod_times@[d]) by {
                let j = choose|j: int| 0 <= j < entries@.len() && entries@[j].0@ == d;
                assert(live@.contains_key(entries@[j].0@));
            }
        }
        live.len() != self.dir_mod_times.len()
    }
}

/// A record written with `to_bytes` and read back with `from_bytes` holds the
/// same applications, in the same order, and the same directory times, when
/// its encoding fits the decoding limit.
pub proof fn lemma_round_trip(c: AppCache, r: Result<AppCache, AppError>)
    requires
        c.wf(),
        fits_decode_limit(c.encoding()),
        reads_back(c.encoding(), r),
    ensures
        r matches Ok(d) && d.apps@ == c.apps@ && d.dir_mod_times@ == c.dir_mod_times@,
{
    let apps = app_rows(c.apps@);
    let dirs = dir_rows(c.dir_mod_times.entries@);
    assert(cache_encoding(apps, dirs) == c.encoding());
    let d = r->Ok_0;
    assert(app_rows(d.apps@) == apps);
    assert forall|i: int| 0 <= i < c.apps@.len() implies d.apps@[i] == c.apps@[i] by {
        assert(app_rows(d.apps@)[i] == apps[i]);
    }
    assert(d.apps@ =~= c.apps@);
    assert(dirs.map_values(|r: DirRow| row_entry(r)) =~= c.dir_mod_times.entries@);
}

/// Once a scan's record has been written with `to_bytes`, a call of
/// `cached_apps` on those bytes while the directories are unchanged serves
/// that record's applications, so no rescan is made.
pub proof fn lemma_served_after_refresh(c: AppCache, live: DirTimes, r: Option<Vec<App>>)
    requires
        c.wf(),
        live.wf(),
        fits_decode_limit(c.encoding()),
        live@ == c.dir_mod_times@,
        serves_encoded(c.encoding(), live@, r),
    ensures
        r matches Some(a) && a@ == c.apps@,
{
    lemma_fresh_on_exact_match(c.dir_mod_times@, live@);
}

/// When every persisted directory is observed with exactly its persisted time
/// and no other directory is observed, the record is fresh.
pub proof fn lemma_fresh_on_exact_match(persisted: Map<Seq<char>, ModTime>, live: Map<Seq<char>, ModTime>)
    requires
        forall|d: Seq<char>|
            #[trigger] persisted.contains_key(d) ==> live.contains_key(d) && live[d] == persisted[d],
        forall|d: Seq<char>| #[trigger] live.contains_key(d) ==> persisted.contains_key(d),
    ensures
        !stale(persisted, live),
{
    assert(live.dom() =~= persisted.dom());
}

/// A persisted directory observed with a strictly later time makes the record stale.
pub proof fn lemma_stale_on_modification(
    persisted: Map<Seq<char>, ModTime>,
    live: Map<Seq<char>, ModTime>,
    dir: Seq<char>,
)
    requires
        persisted.contains_key(dir),
        live.contains_key(dir),
        live[dir].later_than(persisted[dir]),
    ensures
        stale(persisted, live),
{
}

/// A persisted directory that can no longer be observed makes the record stale.
pub proof fn lemma_stale_on_removal(
    persisted: Map<Seq<char>, ModTime>,
    live: Map<Seq<char>, ModTime>,
    dir: Seq<char>,
)
    requires
        persisted.contains_key(dir),
        !live.contains_key(dir),
    ensures
        stale(persisted, live),
{
}

/// More directories observed than persisted makes the record stale, however
/// the persisted ones compare.
pub proof fn lemma_stale_on_new_directory(persisted: Map<Seq<char>, ModTime>, live: Map<Seq<char>, ModTime>)
    requires
        live.len() > persisted.len(),
    ensures
        stale(persisted, live),
{
}

} // verus!
