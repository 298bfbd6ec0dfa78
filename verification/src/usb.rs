//! The baseline tracker: it holds the snapshot of mounted volumes taken
//! when tracking began and classifies each later enumeration against it.

use vstd::prelude::*;
use crate::parse;

verus! {

/// Tracks the set of mounted-volume paths captured at construction time.
pub struct UsbInfo {
    /// The baseline snapshot, one path per entry, free of duplicates.
    pub baseline: Vec<String>,
}

/// The volumes present in `current` that were absent from `baseline`.
/// Volumes that have disappeared since the baseline are not reported.
pub open spec fn new_volumes(baseline: Set<Seq<char>>, current: Set<Seq<char>>) -> Set<Seq<char>> {
    current.difference(baseline)
}

/// Whether the difference holds at least two distinct volumes, so that no
/// single new volume can be named.
pub open spec fn is_ambiguous(diff: Set<Seq<char>>) -> bool {
    exists|x: Seq<char>, y: Seq<char>| diff.contains(x) && diff.contains(y) && x != y
}

/// What a poll may report of the difference between the baseline and the
/// current enumeration: no change when nothing is new, the one new path
/// when exactly one is, and a refusal when several appeared at once.
pub open spec fn detection_ok(
    baseline: Set<Seq<char>>,
    current: Set<Seq<char>>,
    r: Result<Option<String>, String>,
) -> bool {
    let diff = new_volumes(baseline, current);
    match r {
        Result::Ok(Option::None) => diff.is_empty(),
        Result::Ok(Option::Some(path)) => diff == set![path@],
        Result::Err(msg) => is_ambiguous(diff) && msg@ == "More than one target USB device found"@,
    }
}

impl UsbInfo {
    /// The baseline as a set of paths.
    pub open spec fn baseline_set(&self) -> Set<Seq<char>> {
        self.baseline.deep_view().to_set()
    }

    /// The baseline holds each path at most once.
    pub open spec fn wf(&self) -> bool {
        self.baseline.deep_view().no_duplicates()
    }

    /// Seeds the baseline from one enumeration of the mounted volumes,
    /// keeping each path once.
    pub fn new(devices: Vec<String>) -> (r: UsbInfo)
        ensures
            r.wf(),
            r.baseline_set() == devices.deep_view().to_set(),
    {
        let baseline = dedup_paths(&devices);
        UsbInfo { baseline }
    }

    /// Splits raw listing output into lines, discards lines that are empty
    /// once a carriage return left by a CRLF ending is dropped, and trims
    /// whitespace from each surviving line.
    pub fn parse_command_output(output: &str) -> (r: Vec<String>)
        ensures
            r.deep_view() == parse::parse_output_spec(output@),
    {
        let r = parse::parse_from(output, 0);
        proof {
            assert(output@.skip(0) =~= output@);
        }
        r
    }

    /// Parses the tabular output of the logical-disk enumeration utility:
    /// the header line is skipped, then each line is treated as
    /// `parse_command_output` treats it.
    pub fn parse_logical_disk_output(output: &str) -> (r: Vec<String>)
        ensures
            r.deep_view() == parse::parse_tabular_spec(output@),
    {
        let ghost s = output@;
        let n = output.unicode_len();
        let mut k: usize = 0;
        while k < n && output.get_char(k) != '\n'
            invariant
                k <= n,
                n == s.len(),
                s == output@,
                forall|j: int| 0 <= j < k ==> s[j] != '\n',
            decreases n - k,
        {
            k = k + 1;
        }
        if k == n {
            proof {
                parse::lemma_split_lines_no_newline(s);
                assert(parse::split_lines(s).drop_first() =~= Seq::<Seq<char>>::empty());
            }
            Vec::new()
        } else {
            let r = parse::parse_from(output, k + 1);
            proof {
                parse::lemma_split_lines_at(s, k as int);
                assert(parse::split_lines(s).drop_first() =~= parse::split_lines(
                    s.skip(k + 1),
                ));
            }
            r
        }
    }

    /// One poll: classifies the enumeration `current` against the frozen
    /// baseline. Duplicate entries in `current` count as one volume. The
    /// baseline itself is left untouched, so a later poll over the same
    /// enumeration classifies it the same way.
    pub fn detect_new_device_path(&mut self, current: &Vec<String>) -> (r: Result<
        Option<String>,
        String,
    >)
        ensures
            *final (self) == *old(self),
            detection_ok(old(self).baseline_set(), current.deep_view().to_set(), r),
    {
        let ghost diff = new_volumes(old(self).baseline_set(), current.deep_view().to_set());
        let mut news: Vec<String> = Vec::new();
        let n = current.len();
        let mut i: usize = 0;
        while i < n
            invariant
                *self == *old(self),
                n == current.len(),
                i <= n,
                news.deep_view().no_duplicates(),
                news.deep_view().to_set() =~= current.deep_view().take(i as int).to_set()
                    .difference(old(self).baseline_set()),
            decreases n - i,
        {
            let ghost pre = news.deep_view();
            if !contains_path(&self.baseline, &current[i]) && !contains_path(&news, &current[i]) {
                news.push(current[i].clone());
                proof {
                    assert(news.deep_view() =~= pre.push(current.deep_view()[i as int]));
                    lemma_to_set_push(pre, current.deep_view()[i as int]);
                }
            }
            proof {
                lemma_to_set_push(
                    current.deep_view().take(i as int),
                    current.deep_view()[i as int],
                );
                assert(current.deep_view().take(i as int).push(current.deep_view()[i as int])
                    =~= current.deep_view().take(i + 1));
                assert(news.deep_view().to_set() =~= current.deep_view().take(
                    i + 1,
                ).to_set().difference(old(self).baseline_set()));
            }
            i = i + 1;
        }
        proof {
            assert(current.deep_view().take(n as int) =~= current.deep_view());
            assert(news.deep_view().to_set() =~= diff);
        }
        if news.len() >= 2 {
            proof {
                let dv = news.deep_view();
                assert(dv.contains(dv[0]));
                assert(dv.contains(dv[1]));
                assert(dv[0] != dv[1]);
                assert(diff.contains(dv[0]) && diff.contains(dv[1]));
            }
            Result::Err("More than one target USB device found".to_owned())
        } else if news.len() == 1 {
            let path = news[0].clone();
            proof {
                let dv = news.deep_view();
                assert(dv.contains(dv[0]));
                assert(diff =~= set![path@]);
            }
            Result::Ok(Option::Some(path))
        } else {
            proof {
                assert(diff.is_empty());
            }
            Result::Ok(Option::None)
        }
    }
}

/// How the current volumes are to be enumerated on a platform: which
/// utility or directory to consult, and what to do when a listing fails.
#[derive(Debug, PartialEq, Eq)]
pub enum ListingPlan {
    /// windows: run the logical-disk utility and parse its tabular output
    /// with the header line skipped.
    LogicalDisks,
    /// linux with a known user: list `primary`; if that listing fails,
    /// list `fallback`; if that fails too, the snapshot is empty.
    MediaWithFallback { primary: String, fallback: String },
    /// linux without a user identity: nothing is listed and the snapshot
    /// is empty.
    NoUserContext,
    /// macos: list `path`; a failure here propagates to the caller.
    Volumes { path: String },
}

impl UsbInfo {
    /// The per-platform enumeration rule. Only `windows`, `linux` and
    /// `macos` are recognized; any other identifier is refused.
    pub fn enumeration_plan(platform: &str, user: Option<&String>) -> (r: Result<
        ListingPlan,
        String,
    >)
        ensures
            platform@ == "windows"@ ==> r matches Ok(ListingPlan::LogicalDisks),
            platform@ == "linux"@ ==> (match user {
                Option::Some(u) => (r matches Ok(ListingPlan::MediaWithFallback {
                    primary,
                    fallback,
                }) && primary@ == "/media/"@ + u@ && fallback@ == "/mnt"@),
                Option::None => r matches Ok(ListingPlan::NoUserContext),
            }),
            platform@ == "macos"@ ==> (r matches Ok(ListingPlan::Volumes { path }) && path@
                == "/Volumes"@),
            r is Err <==> (platform@ != "windows"@ && platform@ != "linux"@ && platform@
                != "macos"@),
            r matches Err(m) ==> m@ == "Unsupported operating system"@,
    {
        proof {
            reveal_strlit("windows");
            reveal_strlit("linux");
            reveal_strlit("macos");
            assert("windows"@.len() == 7);
            assert("linux"@.len() == 5);
            assert("macos"@.len() == 5);
            assert("linux"@[0] == 'l');
            assert("macos"@[0] == 'm');
        }
        if str_eq(platform, "windows") {
            Result::Ok(ListingPlan::LogicalDisks)
        } else if str_eq(platform, "linux") {
            match user {
                Option::Some(u) => {
                    let primary = "/media/".to_owned().concat(u.as_str());
                    let fallback = "/mnt".to_owned();
                    Result::Ok(ListingPlan::MediaWithFallback { primary, fallback })
                },
                Option::None => Result::Ok(ListingPlan::NoUserContext),
            }
        } else if str_eq(platform, "macos") {
            Result::Ok(ListingPlan::Volumes { path: "/Volumes".to_owned() })
        } else {
            Result::Err("Unsupported operating system".to_owned())
        }
    }

    /// The linux fallback chain over listing outcomes: the primary
    /// listing's output when one could be obtained, else the fallback's,
    /// else an empty snapshot. A failed listing is absorbed, never
    /// propagated.
    pub fn resolve_media_listing(primary: Option<&String>, fallback: Option<&String>) -> (r: Vec<
        String,
    >)
        ensures
            match primary {
                Option::Some(p) => r.deep_view() == parse::parse_output_spec(p@),
                Option::None => match fallback {
                    Option::Some(f) => r.deep_view() == parse::parse_output_spec(f@),
                    Option::None => r.deep_view() == Seq::<Seq<char>>::empty(),
                },
            },
    {
        match primary {
            Option::Some(p) => UsbInfo::parse_command_output(p.as_str()),
            Option::None => match fallback {
                Option::Some(f) => UsbInfo::parse_command_output(f.as_str()),
                Option::None => {
                    let r: Vec<String> = Vec::new();
                    proof {
                        assert(r.deep_view() =~= Seq::<Seq<char>>::empty());
                    }
                    r
                },
            },
        }
    }

    /// The platform's mount-root prefix for building a file path on a
    /// volume: empty on windows, `/media/<user>/` on linux, `/Volumes/`
    /// on macos. On linux the user identity is required.
    pub fn obtain_file_path_prefix(platform: &str, user: Option<&String>) -> (r: Result<
        String,
        String,
    >)
        ensures
            platform@ == "windows"@ ==> (r matches Ok(p) && p@ == Seq::<char>::empty()),
            platform@ == "linux"@ ==> (match user {
                Option::Some(u) => (r matches Ok(p) && p@ == "/media/"@ + u@ + "/"@),
                Option::None => (r matches Err(m) && m@ == "Error detecting user"@),
            }),
            platform@ == "macos"@ ==> (r matches Ok(p) && p@ == "/Volumes/"@),
            (platform@ != "windows"@ && platform@ != "linux"@ && platform@ != "macos"@) ==> (
            r matches Err(m) && m@ == "Unsupported operating system"@),
    {
        proof {
            reveal_strlit("windows");
            reveal_strlit("linux");
            reveal_strlit("macos");
            assert("windows"@.len() == 7);
            assert("linux"@.len() == 5);
            assert("macos"@.len() == 5);
            assert("linux"@[0] == 'l');
            assert("macos"@[0] == 'm');
        }
        if str_eq(platform, "windows") {
            Result::Ok(String::new())
        } else if str_eq(platform, "linux") {
            match user {
                Option::Some(u) => Result::Ok(
                    "/media/".to_owned().concat(u.as_str()).concat("/"),
                ),
                Option::None => Result::Err("Error detecting user".to_owned()),
            }
        } else if str_eq(platform, "macos") {
            Result::Ok("/Volumes/".to_owned())
        } else {
            Result::Err("Unsupported operating system".to_owned())
        }
    }

    /// The path of the demo payload file on a discovered volume: the
    /// platform's mount-root prefix, the volume's path, then the fixed
    /// file name.
    pub fn payload_file_path(prefix: &str, device_path: &str) -> (r: String)
        ensures
            r@ == prefix@ + device_path@ + "/hello_world"@,
    {
        prefix.to_owned().concat(device_path).concat("/hello_world")
    }
}

/// Whether two platform or path strings read the same.
fn str_eq(a: &str, b: &str) -> (r: bool)
    ensures
        r == (a@ == b@),
{
    let x = a.to_owned();
    let y = b.to_owned();
    x.eq(&y)
}

/// Whether some entry of `v` reads the same as `s`.
fn contains_path(v: &Vec<String>, s: &String) -> (r: bool)
    ensures
        r == v.deep_view().contains(s@),
{
    let n = v.len();
    let mut i: usize = 0;
    while i < n
        invariant
            n == v.len(),
            i <= n,
            forall|j: int| 0 <= j < i ==> v.deep_view()[j] != s@,
        decreases n - i,
    {
        if v[i].eq(s) {
            assert(v.deep_view()[i as int] == s@);
            return true;
        }
        i = i + 1;
    }
    assert(forall|j: int| 0 <= j < v.deep_view().len() ==> v.deep_view()[j] != s@);
    false
}

/// The entries of `v` with duplicates dropped: same set of paths, each once.
fn dedup_paths(v: &Vec<String>) -> (r: Vec<String>)
    ensures
        r.deep_view().no_duplicates(),
        r.deep_view().to_set() == v.deep_view().to_set(),
{
    let mut out: Vec<String> = Vec::new();
    let n = v.len();
    let mut i: usize = 0;
    while i < n
        invariant
            n == v.len(),
            i <= n,
            out.deep_view().no_duplicates(),
            out.deep_view().to_set() =~= v.deep_view().take(i as int).to_set(),
        decreases n - i,
    {
        let ghost pre = out.deep_view();
        if !contains_path(&out, &v[i]) {
            out.push(v[i].clone());
            proof {
                assert(out.deep_view() =~= pre.push(v@[i as int]@));
                lemma_to_set_push(pre, v@[i as int]@);
                assert(!pre.contains(v@[i as int]@));
            }
        }
        proof {
            lemma_to_set_push(v.deep_view().take(i as int), v.deep_view()[i as int]);
            assert(v.deep_view().take(i as int).push(v.deep_view()[i as int]) =~= v.deep_view()
                .take(i + 1));
        }
        i = i + 1;
    }
    proof {
        assert(v.deep_view().take(n as int) =~= v.deep_view());
    }
    out
}

proof fn lemma_to_set_push(s: Seq<Seq<char>>, x: Seq<char>)
    ensures
        s.push(x).to_set() =~= s.to_set().insert(x),
{
    assert forall|y: Seq<char>| s.push(x).to_set().contains(y) implies s.to_set().insert(
        x,
    ).contains(y) by {
        let i = choose|i: int| 0 <= i < s.push(x).len() && s.push(x)[i] == y;
        if i < s.len() {
            assert(s.to_set().contains(y));
        }
    }
    assert forall|y: Seq<char>| s.to_set().insert(x).contains(y) implies s.push(
        x,
    ).to_set().contains(y) by {
        if y == x {
            assert(s.push(x)[s.len() as int] == x);
        } else {
            let i = choose|i: int| 0 <= i < s.len() && s[i] == y;
            assert(s.push(x)[i] == y);
        }
    }
}

/// Law: a poll whose enumeration matches the baseline reports no change.
/// Since a poll also leaves the tracker untouched, every poll of a
/// sequence over an unchanged volume set reports no change.
pub proof fn lemma_idempotent_baseline(
    baseline: Set<Seq<char>>,
    current: Set<Seq<char>>,
    r: Result<Option<String>, String>,
)
    requires
        current =~= baseline,
        detection_ok(baseline, current, r),
    ensures
        r matches Ok(Option::None),
{
    let diff = new_volumes(baseline, current);
    assert(diff.is_empty());
    match r {
        Result::Ok(Option::None) => {
        },
        Result::Ok(Option::Some(path)) => {
            assert(set![path@].contains(path@));
            assert(diff.contains(path@));
        },
        Result::Err(_) => {
            let (x, y) = choose|x: Seq<char>, y: Seq<char>|
                diff.contains(x) && diff.contains(y) && x != y;
            assert(diff.contains(x));
        },
    }
}

/// Law: when the enumeration holds exactly one volume the baseline lacks,
/// a poll names that volume and no other.
pub proof fn lemma_single_new_volume(
    a: Seq<char>,
    b: Seq<char>,
    c: Seq<char>,
    r: Result<Option<String>, String>,
)
    requires
        c != a,
        c != b,
        detection_ok(set![a, b], set![a, b, c], r),
    ensures
        r matches Ok(Option::Some(path)) && path@ == c,
{
    let diff = new_volumes(set![a, b], set![a, b, c]);
    assert(diff.contains(c));
    assert(diff =~= set![c]);
    match r {
        Result::Ok(Option::None) => {
            assert(false);
        },
        Result::Ok(Option::Some(path)) => {
            assert(set![path@].contains(path@));
            assert(diff.contains(path@));
        },
        Result::Err(_) => {
            let (x, y) = choose|x: Seq<char>, y: Seq<char>|
                diff.contains(x) && diff.contains(y) && x != y;
            assert(x == c && y == c);
        },
    }
}

/// Law: when several volumes appeared at once, a poll refuses to guess:
/// it fails and names no volume.
pub proof fn lemma_ambiguity_refusal(
    a: Seq<char>,
    b: Seq<char>,
    c: Seq<char>,
    r: Result<Option<String>, String>,
)
    requires
        b != a,
        c != a,
        b != c,
        detection_ok(set![a], set![a, b, c], r),
    ensures
        r is Err,
{
    let diff = new_volumes(set![a], set![a, b, c]);
    assert(set![a, b, c].contains(b));
    assert(set![a, b, c].contains(c));
    assert(diff.contains(b));
    assert(diff.contains(c));
    match r {
        Result::Ok(Option::None) => {
            assert(false);
        },
        Result::Ok(Option::Some(path)) => {
            assert(set![path@].contains(b) && set![path@].contains(c));
            assert(b == path@ && c == path@);
            assert(false);
        },
        Result::Err(_) => {
        },
    }
}

/// Law: the baseline is frozen, so a second poll over the same
/// enumeration classifies it as the first one did: after a volume was
/// named new, polling again without a change names the same volume.
pub proof fn lemma_frozen_baseline_repoll(
    baseline: Set<Seq<char>>,
    current: Set<Seq<char>>,
    path: String,
    r2: Result<Option<String>, String>,
)
    requires
        detection_ok(baseline, current, Result::Ok(Option::Some(path))),
        detection_ok(baseline, current, r2),
    ensures
        r2 matches Ok(Option::Some(path2)) && path2@ == path@,
{
    let diff = new_volumes(baseline, current);
    assert(diff == set![path@]);
    assert(set![path@].contains(path@));
    match r2 {
        Result::Ok(Option::None) => {
            assert(diff.contains(path@));
            assert(false);
        },
        Result::Ok(Option::Some(path2)) => {
            assert(set![path2@].contains(path2@));
            assert(diff.contains(path2@));
        },
        Result::Err(_) => {
            let (x, y) = choose|x: Seq<char>, y: Seq<char>|
                diff.contains(x) && diff.contains(y) && x != y;
            assert(x == path@ && y == path@);
            assert(false);
        },
    }
}

} // verus!
