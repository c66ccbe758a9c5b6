use vstd::prelude::*;
use crate::text::{append_str, chars_of, contains, joined, join_path, occurs_in};

verus! {

/// A command of an extension whose source suggests it will not work here.
#[derive(Clone, Debug, PartialEq, Eq)]
pub struct HeuristicViolation {
    pub command_name: String,
    pub reason: String,
}

/// How an installation ended.
#[derive(Clone, Debug, PartialEq, Eq)]
pub enum InstallResult {
    /// The extension was installed.
    Success,
    /// The extension was not installed: the user must confirm these findings first.
    RequiresConfirmation { violations: Vec<HeuristicViolation> },
}

/// Flags commands that run AppleScript.
pub struct AppleScriptHeuristic;

/// Flags commands that name macOS-only directories.
pub struct MacOSPathHeuristic;

pub open spec fn apple_script_reason() -> Seq<char> {
    "Possible usage of AppleScript (runAppleScript)"@
}

/// The directories, in the order they are looked for, whose mention marks a
/// command as macOS-only.
pub open spec fn macos_paths() -> Seq<Seq<char>> {
    seq!["/Applications/"@, "/Library/"@, "/Users/"@]
}

pub open spec fn macos_path_reason(path: Seq<char>) -> Seq<char> {
    "Potential hardcoded macOS path: '"@ + path + "'"@
}

impl AppleScriptHeuristic {
    /// A violation for the command when its source calls `runAppleScript`.
    pub fn check(&self, command_title: &str, file_content: &str) -> (r: Option<HeuristicViolation>)
        ensures
            occurs_in(file_content@, "runAppleScript"@) ==> (r matches Some(v) && v.command_name@
                == command_title@ && v.reason@ == apple_script_reason()),
            !occurs_in(file_content@, "runAppleScript"@) ==> r is None,
    {
        if contains(file_content, "runAppleScript") {
            let mut command_name = String::new();
            append_str(&mut command_name, command_title);
            let mut reason = String::new();
            append_str(&mut reason, "Possible usage of AppleScript (runAppleScript)");
            Some(HeuristicViolation { command_name, reason })
        } else {
            None
        }
    }
}

impl MacOSPathHeuristic {
    /// A violation for the command naming the first of the macOS-only
    /// directories that its source mentions, if it mentions any.
    pub fn check(&self, command_title: &str, file_content: &str) -> (r: Option<HeuristicViolation>)
        ensures
            (forall|k: int| 0 <= k < 3 ==> !occurs_in(file_content@, #[trigger] macos_paths()[k]))
                ==> r is None,
            forall|k: int|
                0 <= k < 3 && occurs_in(file_content@, #[trigger] macos_paths()[k]) && (forall|j: int|
                    0 <= j < k ==> !occurs_in(file_content@, macos_paths()[j])) ==> (r matches Some(v)
                    && v.command_name@ == command_title@ && v.reason@ == macos_path_reason(
                    macos_paths()[k],
                )),
    {
        let paths: [&str; 3] = ["/Applications/", "/Library/", "/Users/"];
        let ghost ps = macos_paths();
        for i in 0..3
            invariant
                ps == macos_paths(),
                paths@.len() == 3,
                forall|k: int| 0 <= k < 3 ==> (#[trigger] paths@[k])@ == ps[k],
                forall|j: int| 0 <= j < i ==> !occurs_in(file_content@, ps[j]),
        {
            if contains(file_content, paths[i]) {
                let mut command_name = String::new();
                append_str(&mut command_name, command_title);
                let mut reason = String::new();
                append_str(&mut reason, "Potential hardcoded macOS path: '");
                append_str(&mut reason, paths[i]);
                append_str(&mut reason, "'");
                return Some(HeuristicViolation { command_name, reason });
            }
        }
        None
    }
}

/// `c` is the first segment of the path `p`: the characters before its first
/// `/`, or all of `p` when it has none.
pub open spec fn is_first_segment(p: Seq<char>, c: Seq<char>) -> bool {
    &&& c.len() <= p.len()
    &&& p.subrange(0, c.len() as int) == c
    &&& forall|j: int| 0 <= j < c.len() ==> c[j] != '/'
    &&& c.len() == p.len() || p[c.len() as int] == '/'
}

/// The path `p` lies under the leading segment `c`: it is `c`, or starts with `c/`.
pub open spec fn under(p: Seq<char>, c: Seq<char>) -> bool {
    p == c || (p.len() > c.len() && p.subrange(0, c.len() as int) == c && p[c.len() as int] == '/')
}

/// Every name lies under `c`.
pub open spec fn all_under(names: Seq<String>, c: Seq<char>) -> bool {
    forall|i: int| 0 <= i < names.len() ==> under(#[trigger] names[i]@, c)
}

fn first_segment(p: &Vec<char>) -> (r: usize)
    ensures
        r <= p.len(),
        is_first_segment(p@, p@.subrange(0, r as int)),
{
    let mut k: usize = 0;
    while k < p.len() && p[k] != '/'
        invariant
            k <= p.len(),
            forall|j: int| 0 <= j < k ==> p@[j] != '/',
        decreases p.len() - k,
    {
        k = k + 1;
    }
    proof {
        assert(p@.subrange(0, k as int).subrange(0, k as int) =~= p@.subrange(0, k as int));
    }
    k
}

proof fn lemma_first_segment_unique(p: Seq<char>, c: Seq<char>, d: Seq<char>)
    requires
        is_first_segment(p, c),
        is_first_segment(p, d),
    ensures
        c == d,
{
    if c.len() < d.len() {
        assert(p[c.len() as int] == p.subrange(0, d.len() as int)[c.len() as int]);
    } else if d.len() < c.len() {
        assert(p[d.len() as int] == p.subrange(0, c.len() as int)[d.len() as int]);
    }
    assert(c =~= d);
}

fn lies_under(p: &Vec<char>, c: &Vec<char>) -> (r: bool)
    ensures
        r == under(p@, c@),
{
    if p.len() < c.len() {
        return false;
    }
    let mut k: usize = 0;
    while k < c.len()
        invariant
            c.len() <= p.len(),
            k <= c.len(),
            forall|j: int| 0 <= j < k ==> p@[j] == c@[j],
        decreases c.len() - k,
    {
        if p[k] != c[k] {
            proof {
                assert(p@.subrange(0, c.len() as int)[k as int] != c@[k as int]);
            }
            return false;
        }
        k = k + 1;
    }
    proof {
        assert(p@.subrange(0, c.len() as int) =~= c@);
    }
    if p.len() == c.len() {
        proof {
            assert(p@ =~= c@);
        }
        true
    } else {
        let r = p[c.len()] == '/';
        proof {
            if !r {
                assert(p@.len() != c@.len());
            }
        }
        r
    }
}

/// The path begins at the root.
pub open spec fn is_absolute(p: Seq<char>) -> bool {
    p.len() > 0 && p[0] == '/'
}

/// Every name begins at the root.
pub open spec fn all_absolute(names: Seq<String>) -> bool {
    forall|i: int| 0 <= i < names.len() ==> is_absolute(#[trigger] names[i]@)
}

/// The leading component that all names of an archive share, if there are at
/// least two names. The first name's leading component is the root `/` when
/// it is absolute, else its first segment; it is shared when it is non-empty
/// and leads every name.
pub fn find_common_prefix(file_names: &Vec<String>) -> (r: Option<String>)
    ensures
        file_names.len() <= 1 ==> r is None,
        file_names.len() > 1 && is_absolute(file_names@[0]@) ==> if all_absolute(file_names@) {
            r matches Some(s) && s@ == seq!['/']
        } else {
            r is None
        },
        file_names.len() > 1 && !is_absolute(file_names@[0]@) ==> forall|c: Seq<char>|
            #[trigger] is_first_segment(file_names@[0]@, c) ==> if c.len() > 0 && all_under(
                file_names@,
                c,
            ) {
                r matches Some(s) && s@ == c
            } else {
                r is None
            },
{
    if file_names.len() <= 1 {
        return None;
    }
    let first = chars_of(file_names[0].as_str());
    if first.len() > 0 && first[0] == '/' {
        let mut i: usize = 0;
        while i < file_names.len()
            invariant
                i <= file_names.len(),
                file_names.len() > 1,
                is_absolute(file_names@[0]@),
                forall|j: int| 0 <= j < i ==> is_absolute(#[trigger] file_names@[j]@),
            decreases file_names.len() - i,
        {
            let p = chars_of(file_names[i].as_str());
            if !(p.len() > 0 && p[0] == '/') {
                proof {
                    assert(!is_absolute(file_names@[i as int]@));
                }
                return None;
            }
            i = i + 1;
        }
        let mut root = String::new();
        append_str(&mut root, "/");
        proof {
            reveal_strlit("/");
            assert(root@ =~= seq!['/']);
        }
        return Some(root);
    }
    let k = first_segment(&first);
    let ghost seg = first@.subrange(0, k as int);
    proof {
        assert forall|c: Seq<char>| #[trigger] is_first_segment(file_names@[0]@, c) implies c == seg by {
            lemma_first_segment_unique(file_names@[0]@, c, seg);
        }
    }
    if k == 0 {
        return None;
    }
    let mut c: Vec<char> = Vec::new();
    for j in 0..k
        invariant
            k <= first.len(),
            c@ == first@.subrange(0, j as int),
    {
        c.push(first[j]);
        proof {
            assert(c@ =~= first@.subrange(0, j + 1));
        }
    }
    let mut i: usize = 0;
    while i < file_names.len()
        invariant
            c@ == seg,
            seg.len() > 0,
            !is_absolute(file_names@[0]@),
            file_names.len() > 1,
            forall|d: Seq<char>| #[trigger] is_first_segment(file_names@[0]@, d) ==> d == seg,
            i <= file_names.len(),
            forall|j: int| 0 <= j < i ==> under(#[trigger] file_names@[j]@, seg),
        decreases file_names.len() - i,
    {
        let p = chars_of(file_names[i].as_str());
        if !lies_under(&p, &c) {
            proof {
                assert(!under(file_names@[i as int]@, seg));
                assert(!all_under(file_names@, seg));
            }
            return None;
        }
        i = i + 1;
    }
    Some(crate::text::string_of(&c))
}

/// Where an extension's file lies in its archive: under the common prefix
/// when there is one.
pub open spec fn archive_path_of(prefix: Option<String>, name: Seq<char>) -> Seq<char> {
    match prefix {
        Some(p) => joined(p@, name),
        None => name,
    }
}

/// The archive path of the manifest `package.json`.
pub fn package_json_path(prefix: &Option<String>) -> (r: String)
    ensures
        r@ == archive_path_of(*prefix, "package.json"@),
{
    match prefix {
        Some(p) => join_path(p.as_str(), "package.json"),
        None => {
            let mut s = String::new();
            append_str(&mut s, "package.json");
            s
        },
    }
}

/// The archive path of a command's source file, `<name>.js`.
pub fn command_file_path(prefix: &Option<String>, command_name: &str) -> (r: String)
    ensures
        r@ == archive_path_of(*prefix, command_name@ + ".js"@),
{
    let mut file = String::new();
    append_str(&mut file, command_name);
    append_str(&mut file, ".js");
    match prefix {
        Some(p) => join_path(p.as_str(), file.as_str()),
        None => file,
    }
}

/// The outcome owed before extraction: a request for confirmation when any
/// violation was found; `None` when installation may go ahead.
pub fn confirmation_needed(violations: Vec<HeuristicViolation>) -> (r: Option<InstallResult>)
    ensures
        violations.len() == 0 ==> r is None,
        violations.len() > 0 ==> r == Some(InstallResult::RequiresConfirmation { violations }),
{
    if violations.len() == 0 {
        None
    } else {
        Some(InstallResult::RequiresConfirmation { violations })
    }
}

} // verus!
