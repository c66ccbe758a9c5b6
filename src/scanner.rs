use vstd::prelude::*;
use crate::app::App;
use crate::dir_times::ModTime;
use crate::text::{append_str, chars_of, control_char, is_control, join_path, joined, string_of};

verus! {

/// A parsed property list value of the plist crate, held opaquely.
#[verifier::external_type_specification]
#[verifier::external_body]
pub struct ExPlistValue(plist::Value);

/// A property list dictionary of the plist crate, held opaquely.
#[verifier::external_type_specification]
#[verifier::external_body]
pub struct ExPlistDictionary(plist::Dictionary);

/// Relies on `plist::Value::as_dictionary`: the dictionary a dictionary value holds.
pub assume_specification<'a>[ plist::Value::as_dictionary ](v: &'a plist::Value) -> Option<
    &'a plist::Dictionary,
>;

/// Relies on `plist::Dictionary::get`: the value stored under a key.
pub assume_specification<'a>[ plist::Dictionary::get ](d: &'a plist::Dictionary, key: &str) -> Option<
    &'a plist::Value,
>;

/// Relies on `plist::Value::as_string`: the text a string value holds.
pub assume_specification<'a>[ plist::Value::as_string ](v: &'a plist::Value) -> Option<&'a str>;

/// The roots under which applications are installed.
pub fn app_directories() -> (r: Vec<String>)
    ensures
        r@.len() == 2,
        r@[0]@ == "/Applications"@,
        r@[1]@ == "/System/Applications"@,
{
    let mut r: Vec<String> = Vec::new();
    let mut a = String::new();
    append_str(&mut a, "/Applications");
    r.push(a);
    let mut b = String::new();
    append_str(&mut b, "/System/Applications");
    r.push(b);
    r
}

/// A file name whose extension is `app`: it ends in `.app` and has something
/// before that dot.
pub open spec fn bundle_name(n: Seq<char>) -> bool {
    n.len() > 4 && n.subrange(n.len() - 4, n.len() as int) == ".app"@
}

/// Whether a directory entry is an application bundle: a directory whose
/// name has the extension `app`.
pub fn is_app_bundle(file_name: &str, is_dir: bool) -> (r: bool)
    ensures
        r == (is_dir && bundle_name(file_name@)),
{
    if !is_dir {
        return false;
    }
    let v = chars_of(file_name);
    let n = v.len();
    if n <= 4 {
        return false;
    }
    let r = v[n - 4] == '.' && v[n - 3] == 'a' && v[n - 2] == 'p' && v[n - 1] == 'p';
    proof {
        reveal_strlit(".app");
        let tail = file_name@.subrange(n - 4, n as int);
        if r {
            assert(tail =~= ".app"@);
        } else {
            assert(tail != ".app"@) by {
                if tail == ".app"@ {
                    assert(tail[0] == '.' && tail[1] == 'a' && tail[2] == 'p' && tail[3] == 'p');
                }
            }
        }
    }
    r
}

/// The paths of the bundles among the entries of `root`, in the entries' order.
pub open spec fn bundle_paths(root: Seq<char>, entries: Seq<(String, bool)>) -> Seq<Seq<char>>
    decreases entries.len(),
{
    if entries.len() == 0 {
        seq![]
    } else {
        let rest = bundle_paths(root, entries.drop_last());
        let e = entries.last();
        if e.1 && bundle_name(e.0@) {
            rest.push(joined(root, e.0@))
        } else {
            rest
        }
    }
}

/// The paths of the application bundles among the entries of the directory
/// `root`, each entry given by its file name and whether it is a directory.
pub fn find_app_bundles(root: &str, entries: &Vec<(String, bool)>) -> (r: Vec<String>)
    ensures
        r@.map_values(|s: String| s@) == bundle_paths(root@, entries@),
{
    let mut r: Vec<String> = Vec::new();
    for i in 0..entries.len()
        invariant
            r@.map_values(|s: String| s@) == bundle_paths(root@, entries@.subrange(0, i as int)),
    {
        proof {
            assert(entries@.subrange(0, i + 1).drop_last() =~= entries@.subrange(0, i as int));
        }
        let e = &entries[i];
        if is_app_bundle(e.0.as_str(), e.1) {
            let p = join_path(root, e.0.as_str());
            let ghost before = r@;
            r.push(p);
            proof {
                assert(r@.map_values(|s: String| s@) =~= before.map_values(|s: String| s@).push(p@));
            }
        }
    }
    proof {
        assert(entries@.subrange(0, entries.len() as int) =~= entries@);
    }
    r
}

/// A character that cannot stand in a single path segment.
pub open spec fn path_hostile(c: char) -> bool {
    c == '/' || c == '\\' || c == ':' || c == '*' || c == '?' || c == '"' || c == '<' || c == '>'
        || c == '|'
}

/// `s` made safe as one path segment: path-hostile characters become `_`,
/// control characters are dropped, the rest is kept.
pub open spec fn sanitized(s: Seq<char>) -> Seq<char>
    decreases s.len(),
{
    if s.len() == 0 {
        seq![]
    } else {
        let rest = sanitized(s.drop_last());
        let c = s.last();
        if path_hostile(c) {
            rest.push('_')
        } else if control_char(c) {
            rest
        } else {
            rest.push(c)
        }
    }
}

/// `name` made safe as a single file-name segment.
pub fn sanitize_filename(name: &str) -> (r: String)
    ensures
        r@ == sanitized(name@),
{
    let v = chars_of(name);
    let mut out: Vec<char> = Vec::new();
    for i in 0..v.len()
        invariant
            v@ == name@,
            out@ == sanitized(name@.subrange(0, i as int)),
    {
        proof {
            assert(name@.subrange(0, i + 1).drop_last() =~= name@.subrange(0, i as int));
        }
        let c = v[i];
        if c == '/' || c == '\\' || c == ':' || c == '*' || c == '?' || c == '"' || c == '<' || c
            == '>' || c == '|' {
            out.push('_');
        } else if is_control(c) {
        } else {
            out.push(c);
        }
    }
    proof {
        assert(name@.subrange(0, v.len() as int) =~= name@);
    }
    string_of(&out)
}

/// The last segment of a path holds a dot that does not begin it.
pub open spec fn has_extension(p: Seq<char>) -> bool {
    exists|i: int|
        0 < i < p.len() && #[trigger] p[i] == '.' && p[i - 1] != '/' && forall|j: int|
            i < j < p.len() ==> p[j] != '/'
}

fn extension_present(v: &Vec<char>) -> (r: bool)
    ensures
        r == has_extension(v@),
{
    let mut k: usize = v.len();
    while k > 0
        invariant
            k <= v.len(),
            forall|j: int| k <= j < v.len() ==> v@[j] != '/',
            forall|i: int|
                k <= i < v.len() && 0 < i ==> !(#[trigger] v@[i] == '.' && v@[i - 1] != '/'),
        decreases k,
    {
        let c = v[k - 1];
        if c == '/' {
            proof {
                assert forall|i: int|
                    0 < i < v.len() && #[trigger] v@[i] == '.' && v@[i - 1] != '/' implies !(forall|j: int|
                    i < j < v.len() ==> v@[j] != '/') by {
                    assert(i < k - 1 || i >= k);
                    if i < k - 1 {
                        assert(v@[k - 1] == '/');
                    }
                }
            }
            return false;
        }
        if c == '.' && k >= 2 && v[k - 2] != '/' {
            proof {
                assert(0 < k - 1 < v.len() && v@[k - 1] == '.' && v@[k - 2] != '/');
            }
            return true;
        }
        k = k - 1;
    }
    false
}

/// The path of a bundle's icon asset: the reference under
/// `Contents/Resources`, with the extension `.icns` where it has none.
pub open spec fn icns_path_of(bundle: Seq<char>, icon_file: Seq<char>) -> Seq<char> {
    let p = joined(joined(bundle, "Contents/Resources"@), icon_file);
    if has_extension(p) {
        p
    } else {
        p + ".icns"@
    }
}

/// Where a bundle's icon asset lies, given the icon reference of its metadata.
pub fn icns_path(bundle: &str, icon_file: &str) -> (r: String)
    ensures
        r@ == icns_path_of(bundle@, icon_file@),
{
    let resources = join_path(bundle, "Contents/Resources");
    let mut p = join_path(resources.as_str(), icon_file);
    let v = chars_of(p.as_str());
    if !extension_present(&v) {
        append_str(&mut p, ".icns");
    }
    p
}

/// The file under the icon cache directory that holds an application's
/// converted icon.
pub open spec fn icon_cache_file_of(cache_dir: Seq<char>, app_name: Seq<char>) -> Seq<char> {
    joined(cache_dir, sanitized(app_name) + ".png"@)
}

/// The cached icon file for the application `app_name`.
pub fn icon_cache_file(cache_dir: &str, app_name: &str) -> (r: String)
    ensures
        r@ == icon_cache_file_of(cache_dir@, app_name@),
{
    let mut file = sanitize_filename(app_name);
    append_str(&mut file, ".png");
    join_path(cache_dir, file.as_str())
}

/// Whether an icon must be converted again. `cached` holds the modification
/// times of the cached icon file and of the bundle when a cached file exists;
/// without one the icon is converted, with one only if the bundle is newer.
pub fn needs_conversion(cached: Option<(ModTime, ModTime)>) -> (r: bool)
    ensures
        r == match cached {
            None => true,
            Some((icon, bundle)) => bundle.later_than(icon),
        },
{
    match cached {
        None => true,
        Some((icon, bundle)) => bundle.is_after(&icon),
    }
}

/// The executable of a bundle: its executable reference under `Contents/MacOS`.
pub open spec fn executable_path_of(bundle: Seq<char>, exec: Seq<char>) -> Seq<char> {
    joined(joined(bundle, "Contents/MacOS"@), exec)
}

/// Where a bundle's executable lies, given the executable reference of its metadata.
pub fn executable_path(bundle: &str, exec: &str) -> (r: String)
    ensures
        r@ == executable_path_of(bundle@, exec@),
{
    let macos = join_path(bundle, "Contents/MacOS");
    join_path(macos.as_str(), exec)
}

/// What a bundle's metadata says of it.
#[derive(Clone, Debug, PartialEq, Eq)]
pub struct BundleMetadata {
    /// The application's name, when the metadata has one.
    pub name: Option<String>,
    /// The executable reference, relative to `Contents/MacOS`.
    pub executable: Option<String>,
    /// The icon reference, relative to `Contents/Resources`.
    pub icon_file: Option<String>,
}

fn string_entry(d: &plist::Dictionary, key: &str) -> Option<String> {
    match d.get(key) {
        Some(v) => match v.as_string() {
            Some(s) => Some(s.to_owned()),
            None => None,
        },
        None => None,
    }
}

impl BundleMetadata {
    /// The name, executable and icon entries of a bundle's property list;
    /// each is absent where the entry is missing or is not a string.
    pub fn from_plist(v: &plist::Value) -> (r: BundleMetadata) {
        match v.as_dictionary() {
            Some(d) => BundleMetadata {
                name: string_entry(d, "CFBundleName"),
                executable: string_entry(d, "CFBundleExecutable"),
                icon_file: string_entry(d, "CFBundleIconFile"),
            },
            None => BundleMetadata { name: None, executable: None, icon_file: None },
        }
    }
}

/// The record a bundle yields: none unless its metadata names both the
/// application and its executable.
pub open spec fn parsed_app(bundle: Seq<char>, meta: BundleMetadata, icon_path: Option<String>) -> Option<
    (Seq<char>, Seq<char>, Option<String>),
> {
    match (meta.name, meta.executable) {
        (Some(n), Some(e)) => Some((n@, executable_path_of(bundle, e@), icon_path)),
        _ => None,
    }
}

/// Whether `a` is the record described by `p`.
pub open spec fn is_record(a: App, p: (Seq<char>, Seq<char>, Option<String>)) -> bool {
    &&& a.name@ == p.0
    &&& a.executable_path matches Some(x) && x@ == p.1
    &&& a.icon_path == p.2
}

/// The record of one bundle, from its metadata and its resolved icon.
pub fn parse_app_bundle(bundle_path: &str, meta: BundleMetadata, icon_path: Option<String>) -> (r: Option<App>)
    ensures
        match parsed_app(bundle_path@, meta, icon_path) {
            None => r is None,
            Some(p) => r matches Some(a) && is_record(a, p),
        },
{
    match (meta.name, meta.executable) {
        (Some(name), Some(exec)) => {
            let exec_path = executable_path(bundle_path, exec.as_str());
            Some(App::new(name).with_exec(Some(exec_path)).with_icon_path(icon_path))
        },
        _ => None,
    }
}

/// A bundle found by a scan: its path, its metadata, and its resolved icon.
#[derive(Clone, Debug, PartialEq, Eq)]
pub struct BundleCandidate {
    pub path: String,
    pub metadata: BundleMetadata,
    pub icon_path: Option<String>,
}

/// The records that the candidates yield, in order; a candidate without a
/// name or an executable yields none.
pub open spec fn parsed_apps(c: Seq<BundleCandidate>) -> Seq<(Seq<char>, Seq<char>, Option<String>)>
    decreases c.len(),
{
    if c.len() == 0 {
        seq![]
    } else {
        let rest = parsed_apps(c.drop_last());
        let l = c.last();
        match parsed_app(l.path@, l.metadata, l.icon_path) {
            Some(p) => rest.push(p),
            None => rest,
        }
    }
}

/// The records of all candidates that have a name and an executable; the
/// others are skipped.
pub fn parse_app_bundles(candidates: Vec<BundleCandidate>) -> (r: Vec<App>)
    ensures
        r@.len() == parsed_apps(candidates@).len(),
        forall|i: int| 0 <= i < r@.len() ==> is_record(#[trigger] r@[i], parsed_apps(candidates@)[i]),
{
    let mut r: Vec<App> = Vec::new();
    let mut i: usize = 0;
    let n = candidates.len();
    let mut rest = candidates;
    let ghost all = rest@;
    while i < n
        invariant
            n == all.len(),
            i <= n,
            rest@.len() == n - i,
            rest@ == all.subrange(i as int, n as int),
            r@.len() == parsed_apps(all.subrange(0, i as int)).len(),
            forall|j: int|
                0 <= j < r@.len() ==> is_record(#[trigger] r@[j], parsed_apps(all.subrange(0, i as int))[j]),
        decreases n - i,
    {
        let c = rest.remove(0);
        proof {
            assert(all.subrange(0, i + 1).drop_last() =~= all.subrange(0, i as int));
            assert(c == all[i as int]);
        }
        let ghost before = r@;
        match parse_app_bundle(c.path.as_str(), c.metadata, c.icon_path) {
            Some(a) => {
                r.push(a);
                proof {
                    assert(r@ == before.push(a));
                }
            },
            None => {},
        }
        i = i + 1;
    }
    proof {
        assert(all.subrange(0, n as int) =~= all);
    }
    r
}

} // verus!
