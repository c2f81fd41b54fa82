//! Where files are looked for, and the settings of the daemon. A float is held as the 32 bits that
//! encode it.
use vstd::prelude::*;

verus! {

/// What a path is relative to.
#[derive(Debug, Clone, Copy, PartialEq, Eq, Structural)]
pub enum Root {
    /// The path that an environment variable names.
    Given,
    /// The directory of the executable.
    ExecutableDir,
    /// The current working directory.
    WorkingDir,
    /// The user's data directory, `XDG_DATA_HOME`.
    DataHome,
    /// The user's runtime directory, `XDG_RUNTIME_DIR`.
    RuntimeDir,
    /// The user's home directory.
    Home,
    /// The root of the file system.
    FileSystem,
}

/// Which roots there are, beside those that are always there.
#[derive(Debug, Clone, Copy)]
pub struct KnownRoots {
    pub given: bool,
    pub executable_dir: bool,
    pub data_home: bool,
    pub home: bool,
}

/// A path, relative to a root. The empty path is the root itself.
#[derive(Debug)]
pub struct Location {
    pub root: Root,
    pub path: String,
}

/// A location that is taken where the path `probe`, relative to the same root, exists.
#[derive(Debug)]
pub struct Candidate {
    pub location: Location,
    pub probe: String,
}

/// A location, by its characters.
pub struct LocationView {
    pub root: Root,
    pub path: Seq<char>,
}

/// A candidate, by its characters.
pub struct CandidateView {
    pub location: LocationView,
    pub probe: Seq<char>,
}

impl View for Location {
    type V = LocationView;

    open spec fn view(&self) -> LocationView {
        LocationView { root: self.root, path: self.path@ }
    }
}

impl View for Candidate {
    type V = CandidateView;

    open spec fn view(&self) -> CandidateView {
        CandidateView { location: self.location@, probe: self.probe@ }
    }
}

/// The location of the path `path`.
pub open spec fn located(root: Root, path: Seq<char>) -> LocationView {
    LocationView { root, path }
}

/// The candidate `path`, taken where `probe` exists.
pub open spec fn place(root: Root, path: Seq<char>, probe: Seq<char>) -> CandidateView {
    CandidateView { location: located(root, path), probe }
}

/// The candidate `path`, taken where it exists itself.
pub open spec fn itself(root: Root, path: Seq<char>) -> CandidateView {
    place(root, path, path)
}

/// The candidates, where their root is known, and none otherwise.
pub open spec fn when(known: bool, candidates: Seq<CandidateView>) -> Seq<CandidateView> {
    if known {
        candidates
    } else {
        Seq::empty()
    }
}

/// Candidates, by their characters.
pub open spec fn candidate_views(v: Seq<Candidate>) -> Seq<CandidateView> {
    v.map_values(|c: Candidate| c@)
}

fn location(root: Root, path: &str) -> (r: Location)
    ensures
        r@ == located(root, path@),
{
    Location { root, path: path.to_owned() }
}

fn candidate(root: Root, path: &str, probe: &str) -> (r: Candidate)
    ensures
        r@ == place(root, path@, probe@),
{
    Candidate { location: location(root, path), probe: probe.to_owned() }
}

fn plain_candidate(root: Root, path: &str) -> (r: Candidate)
    ensures
        r@ == itself(root, path@),
{
    candidate(root, path, path)
}

/// Where the models directory can be, the preferred place first.
pub open spec fn models_dirs(known: KnownRoots) -> Seq<CandidateView> {
    let p1 = when(
        known.given,
        seq![
            itself(Root::Given, ""@),
        ],
    );
    let p2 = seq![
        place(Root::WorkingDir, "models"@, "models/kokoro"@),
    ];
    let p3 = when(
        known.executable_dir,
        seq![
            itself(Root::ExecutableDir, "models"@),
            itself(Root::ExecutableDir, "../models"@),
            itself(Root::ExecutableDir, "../../models"@),
        ],
    );
    let p4 = when(
        known.data_home,
        seq![
            itself(Root::DataHome, "pi-speak/models"@),
        ],
    );
    let p5 = when(
        known.home,
        seq![
            itself(Root::Home, ".local/share/pi-speak/models"@),
        ],
    );
    let p6 = seq![
        itself(Root::FileSystem, "/usr/local/share/pi-speak/models"@),
        itself(Root::FileSystem, "/usr/share/pi-speak/models"@),
    ];
    p1 + p2 + p3 + p4 + p5 + p6
}

/// The places where the models directory can be, the preferred one first.
pub fn models_dir_candidates(known: &KnownRoots) -> (r: Vec<Candidate>)
    ensures
        candidate_views(r@) == models_dirs(*known),
{
    let mut r: Vec<Candidate> = Vec::new();
    if known.given {
        r.push(plain_candidate(Root::Given, ""));
    }
    r.push(candidate(Root::WorkingDir, "models", "models/kokoro"));
    if known.executable_dir {
        r.push(plain_candidate(Root::ExecutableDir, "models"));
        r.push(plain_candidate(Root::ExecutableDir, "../models"));
        r.push(plain_candidate(Root::ExecutableDir, "../../models"));
    }
    if known.data_home {
        r.push(plain_candidate(Root::DataHome, "pi-speak/models"));
    }
    if known.home {
        r.push(plain_candidate(Root::Home, ".local/share/pi-speak/models"));
    }
    r.push(plain_candidate(Root::FileSystem, "/usr/local/share/pi-speak/models"));
    r.push(plain_candidate(Root::FileSystem, "/usr/share/pi-speak/models"));
    assert(candidate_views(r@) =~= models_dirs(*known));
    r
}

/// Where the ONNX Runtime library can be, the preferred place first.
pub open spec fn runtime_libraries(known: KnownRoots) -> Seq<CandidateView> {
    let p1 = when(
        known.given,
        seq![
            itself(Root::Given, ""@),
        ],
    );
    let p2 = when(
        known.executable_dir,
        seq![
            itself(Root::ExecutableDir, "libonnxruntime.so"@),
            itself(Root::ExecutableDir, "../lib/libonnxruntime.so"@),
            itself(Root::ExecutableDir, "../../lib/libonnxruntime.so"@),
        ],
    );
    let p3 = seq![
        itself(Root::WorkingDir, "lib/libonnxruntime.so"@),
    ];
    let p4 = when(
        known.home,
        seq![
            itself(Root::Home, ".local/lib/libonnxruntime.so"@),
            itself(Root::Home, ".local/lib/libonnxruntime.dylib"@),
        ],
    );
    let p5 = seq![
        itself(Root::FileSystem, "/usr/lib/libonnxruntime.so"@),
        itself(Root::FileSystem, "/usr/local/lib/libonnxruntime.so"@),
        itself(Root::FileSystem, "/usr/lib/x86_64-linux-gnu/libonnxruntime.so"@),
        itself(Root::FileSystem, "/usr/lib/aarch64-linux-gnu/libonnxruntime.so"@),
        itself(Root::FileSystem, "/usr/lib64/libonnxruntime.so"@),
        itself(Root::FileSystem, "/opt/homebrew/lib/libonnxruntime.dylib"@),
        itself(Root::FileSystem, "/usr/local/lib/libonnxruntime.dylib"@),
    ];
    p1 + p2 + p3 + p4 + p5
}

/// The places where the ONNX Runtime library can be, the preferred one first.
pub fn runtime_library_candidates(known: &KnownRoots) -> (r: Vec<Candidate>)
    ensures
        candidate_views(r@) == runtime_libraries(*known),
{
    let mut r: Vec<Candidate> = Vec::new();
    if known.given {
        r.push(plain_candidate(Root::Given, ""));
    }
    if known.executable_dir {
        r.push(plain_candidate(Root::ExecutableDir, "libonnxruntime.so"));
        r.push(plain_candidate(Root::ExecutableDir, "../lib/libonnxruntime.so"));
        r.push(plain_candidate(Root::ExecutableDir, "../../lib/libonnxruntime.so"));
    }
    r.push(plain_candidate(Root::WorkingDir, "lib/libonnxruntime.so"));
    if known.home {
        r.push(plain_candidate(Root::Home, ".local/lib/libonnxruntime.so"));
        r.push(plain_candidate(Root::Home, ".local/lib/libonnxruntime.dylib"));
    }
    r.push(plain_candidate(Root::FileSystem, "/usr/lib/libonnxruntime.so"));
    r.push(plain_candidate(Root::FileSystem, "/usr/local/lib/libonnxruntime.so"));
    r.push(plain_candidate(Root::FileSystem, "/usr/lib/x86_64-linux-gnu/libonnxruntime.so"));
    r.push(plain_candidate(Root::FileSystem, "/usr/lib/aarch64-linux-gnu/libonnxruntime.so"));
    r.push(plain_candidate(Root::FileSystem, "/usr/lib64/libonnxruntime.so"));
    r.push(plain_candidate(Root::FileSystem, "/opt/homebrew/lib/libonnxruntime.dylib"));
    r.push(plain_candidate(Root::FileSystem, "/usr/local/lib/libonnxruntime.dylib"));
    assert(candidate_views(r@) =~= runtime_libraries(*known));
    r
}

/// The first candidate, from `i` on, that is there; the directory `models` where none is.
pub open spec fn first_found(
    candidates: Seq<CandidateView>,
    exists: Seq<bool>,
    i: int,
) -> LocationView
    decreases candidates.len() - i,
{
    if i < 0 || i >= candidates.len() {
        located(Root::WorkingDir, "models"@)
    } else if exists[i] {
        candidates[i].location
    } else {
        first_found(candidates, exists, i + 1)
    }
}

/// Locates the models directory across standard installation paths: `exists` says of each
/// candidate whether its probe exists.
pub fn find_models_dir(candidates: &Vec<Candidate>, exists: &Vec<bool>) -> (r: Location)
    requires
        exists@.len() == candidates@.len(),
    ensures
        r@ == first_found(candidate_views(candidates@), exists@, 0),
{
    let mut i: usize = 0;
    while i < candidates.len()
        invariant
            i <= candidates@.len(),
            exists@.len() == candidates@.len(),
            first_found(candidate_views(candidates@), exists@, 0) == first_found(
                candidate_views(candidates@),
                exists@,
                i as int,
            ),
        decreases candidates.len() - i,
    {
        if exists[i] {
            let l = &candidates[i].location;
            return location(l.root, l.path.as_str());
        }
        i += 1;
    }
    location(Root::WorkingDir, "models")
}

/// The first place that exists, from `i` on.
pub open spec fn next_existing(exists: Seq<bool>, i: int) -> Option<int>
    decreases exists.len() - i,
{
    if i < 0 || i >= exists.len() {
        None
    } else if exists[i] {
        Some(i)
    } else {
        next_existing(exists, i + 1)
    }
}

/// Which of the places is tried next, where the first `tried` are done with: the first that exists.
pub fn next_library(exists: &Vec<bool>, tried: usize) -> (r: Option<usize>)
    requires
        tried <= exists@.len(),
    ensures
        match r {
            Some(i) => next_existing(exists@, tried as int) == Some(i as int),
            None => next_existing(exists@, tried as int) is None,
        },
        r matches Some(i) ==> tried <= i < exists@.len() && exists@[i as int] && forall|j: int|
            tried <= j < i ==> !(#[trigger] exists@[j]),
        r is None ==> forall|j: int| tried <= j < exists@.len() ==> !(#[trigger] exists@[j]),
{
    let mut i: usize = tried;
    while i < exists.len()
        invariant
            tried <= i <= exists@.len(),
            next_existing(exists@, tried as int) == next_existing(exists@, i as int),
            forall|j: int| tried <= j < i ==> !(#[trigger] exists@[j]),
        decreases exists.len() - i,
    {
        if exists[i] {
            return Some(i);
        }
        i += 1;
    }
    None
}

/// The place that is taken is the first whose probe exists: nothing before it is there.
pub proof fn law_the_first_place_is_taken(
    candidates: Seq<CandidateView>,
    exists: Seq<bool>,
    k: int,
)
    requires
        exists.len() == candidates.len(),
        0 <= k < candidates.len(),
        exists[k],
        forall|j: int| 0 <= j < k ==> !(#[trigger] exists[j]),
    ensures
        first_found(candidates, exists, 0) == candidates[k].location,
{
    lemma_first_found(candidates, exists, 0, k);
}

proof fn lemma_first_found(candidates: Seq<CandidateView>, exists: Seq<bool>, i: int, k: int)
    requires
        exists.len() == candidates.len(),
        0 <= i <= k < candidates.len(),
        exists[k],
        forall|j: int| i <= j < k ==> !(#[trigger] exists[j]),
    ensures
        first_found(candidates, exists, i) == candidates[k].location,
    decreases k - i,
{
    if i < k {
        lemma_first_found(candidates, exists, i + 1, k);
    }
}

/// Where the socket of the daemon is: where a variable says so, else in the runtime directory where
/// there is one, else in `/tmp`.
pub open spec fn socket_place(given: bool, runtime_dir: bool) -> LocationView {
    if given {
        located(Root::Given, ""@)
    } else if runtime_dir {
        located(Root::RuntimeDir, "pi-speak.sock"@)
    } else {
        located(Root::FileSystem, "/tmp/pi-speak.sock"@)
    }
}

/// Decides where the socket of the daemon is.
pub fn choose_socket(given: bool, runtime_dir: bool) -> (r: Location)
    ensures
        r@ == socket_place(given, runtime_dir),
{
    if given {
        location(Root::Given, "")
    } else if runtime_dir {
        location(Root::RuntimeDir, "pi-speak.sock")
    } else {
        location(Root::FileSystem, "/tmp/pi-speak.sock")
    }
}

/// The bits of 1.15, the usual pace.
pub const DEFAULT_SPEED_BITS: u32 = 0x3f93_3333;

/// The sample rate of the audio output.
pub const DEFAULT_SAMPLE_RATE: u32 = 48000;

/// The number of words that a chunk waits for.
pub const DEFAULT_SUSTAINED_WORDS: usize = 30;

/// The settings of the daemon. The paths of the model and of the voices are relative to the models
/// directory.
#[derive(Debug)]
pub struct Config {
    pub socket_path: Location,
    pub models_dir: Location,
    pub kokoro_model: String,
    pub kokoro_voices: String,
    pub kokoro_voice: String,
    pub kokoro_speed: u32,
    pub target_sample_rate: u32,
    pub summarize_code_blocks: bool,
    pub sustained_words: usize,
}

impl Config {
    /// The settings with the voice and the pace of the environment, where it names them.
    pub fn from_environment(
        socket_path: Location,
        models_dir: Location,
        voice: Option<String>,
        speed: Option<u32>,
    ) -> (r: Config)
        ensures
            r.socket_path == socket_path,
            r.models_dir == models_dir,
            r.kokoro_model@ == "kokoro/kokoro-v1.0.onnx"@,
            r.kokoro_voices@ == "kokoro/voices-v1.0.bin"@,
            r.kokoro_voice@ == (match voice {
                Some(v) => v@,
                None => "jarvis"@,
            }),
            r.kokoro_speed == (match speed {
                Some(s) => s,
                None => DEFAULT_SPEED_BITS,
            }),
            r.target_sample_rate == DEFAULT_SAMPLE_RATE,
            r.summarize_code_blocks,
            r.sustained_words == DEFAULT_SUSTAINED_WORDS,
    {
        Config {
            socket_path,
            models_dir,
            kokoro_model: "kokoro/kokoro-v1.0.onnx".to_owned(),
            kokoro_voices: "kokoro/voices-v1.0.bin".to_owned(),
            kokoro_voice: match voice {
                Some(v) => v,
                None => "jarvis".to_owned(),
            },
            kokoro_speed: match speed {
                Some(s) => s,
                None => DEFAULT_SPEED_BITS,
            },
            target_sample_rate: DEFAULT_SAMPLE_RATE,
            summarize_code_blocks: true,
            sustained_words: DEFAULT_SUSTAINED_WORDS,
        }
    }

    /// Puts what the command line names in place of the settings.
    pub fn override_with(&mut self, rate: Option<u32>, voice: Option<String>, speed: Option<u32>)
        ensures
            *final(self) == (Config {
                target_sample_rate: match rate {
                    Some(r) => r,
                    None => old(self).target_sample_rate,
                },
                kokoro_voice: match voice {
                    Some(v) => v,
                    None => old(self).kokoro_voice,
                },
                kokoro_speed: match speed {
                    Some(s) => s,
                    None => old(self).kokoro_speed,
                },
                ..*old(self)
            }),
    {
        match rate {
            Some(r) => self.target_sample_rate = r,
            None => {},
        }
        match voice {
            Some(v) => self.kokoro_voice = v,
            None => {},
        }
        match speed {
            Some(s) => self.kokoro_speed = s,
            None => {},
        }
    }
}

/// The models directory is looked for in each place where it can be, and in this order: where a
/// variable says, in the working directory, beside the executable and above it, in the user's data
/// directory, in the user's home, and in the two shared places of the system. In the working
/// directory it is taken only where it holds the models of the engine.
pub proof fn law_models_are_looked_for_in_order(known: KnownRoots)
    ensures
        ({
            let d = models_dirs(known);
            let a: int = if known.given {
                1
            } else {
                0
            };
            let b: int = if known.executable_dir {
                a + 4
            } else {
                a + 1
            };
            let c: int = if known.data_home {
                b + 1
            } else {
                b
            };
            let e: int = if known.home {
                c + 1
            } else {
                c
            };
            &&& d.len() == e + 2
            &&& known.given ==> d[0].location.root == Root::Given && d[0].location.path == ""@
            &&& d[a].location.root == Root::WorkingDir && d[a].location.path == "models"@
                && d[a].probe == "models/kokoro"@
            &&& known.executable_dir ==> d[a + 1].location.root == Root::ExecutableDir && d[a
                + 1].location.path == "models"@ && d[a + 2].location.root == Root::ExecutableDir
                && d[a + 2].location.path == "../models"@ && d[a + 3].location.root
                == Root::ExecutableDir && d[a + 3].location.path == "../../models"@
            &&& known.data_home ==> d[b].location.root == Root::DataHome && d[b].location.path
                == "pi-speak/models"@
            &&& known.home ==> d[c].location.root == Root::Home && d[c].location.path
                == ".local/share/pi-speak/models"@
            &&& d[e].location.root == Root::FileSystem && d[e].location.path
                == "/usr/local/share/pi-speak/models"@
            &&& d[e + 1].location.root == Root::FileSystem && d[e + 1].location.path
                == "/usr/share/pi-speak/models"@
            &&& forall|i: int|
                0 <= i < d.len() && i != a ==> (#[trigger] d[i]).probe == d[i].location.path
        }),
{
}

/// The runtime library is looked for in each place where it can be, and in this order: where a
/// variable says, beside the executable and above it, in the working directory, in the user's home
/// and in the places of the system.
pub proof fn law_libraries_are_looked_for_in_order(known: KnownRoots)
    ensures
        ({
            let d = runtime_libraries(known);
            let a: int = if known.given {
                1
            } else {
                0
            };
            let b: int = if known.executable_dir {
                a + 3
            } else {
                a
            };
            let c: int = if known.home {
                b + 3
            } else {
                b + 1
            };
            &&& d.len() == c + 7
            &&& known.given ==> d[0].location.root == Root::Given && d[0].location.path == ""@
            &&& known.executable_dir ==> d[a].location.path == "libonnxruntime.so"@ && d[a
                + 1].location.path == "../lib/libonnxruntime.so"@ && d[a + 2].location.path
                == "../../lib/libonnxruntime.so"@ && d[a].location.root == Root::ExecutableDir
                && d[a + 1].location.root == Root::ExecutableDir && d[a + 2].location.root
                == Root::ExecutableDir
            &&& d[b].location.root == Root::WorkingDir && d[b].location.path
                == "lib/libonnxruntime.so"@
            &&& known.home ==> d[b + 1].location.root == Root::Home && d[b + 1].location.path
                == ".local/lib/libonnxruntime.so"@ && d[b + 2].location.root == Root::Home && d[b
                + 2].location.path == ".local/lib/libonnxruntime.dylib"@
            &&& forall|i: int|
                c <= i < c + 7 ==> (#[trigger] d[i]).location.root == Root::FileSystem
            &&& d[c].location.path == "/usr/lib/libonnxruntime.so"@
            &&& d[c + 1].location.path == "/usr/local/lib/libonnxruntime.so"@
            &&& d[c + 2].location.path == "/usr/lib/x86_64-linux-gnu/libonnxruntime.so"@
            &&& d[c + 3].location.path == "/usr/lib/aarch64-linux-gnu/libonnxruntime.so"@
            &&& d[c + 4].location.path == "/usr/lib64/libonnxruntime.so"@
            &&& d[c + 5].location.path == "/opt/homebrew/lib/libonnxruntime.dylib"@
            &&& d[c + 6].location.path == "/usr/local/lib/libonnxruntime.dylib"@
            &&& forall|i: int|
                0 <= i < d.len() ==> (#[trigger] d[i]).probe == d[i].location.path
        }),
{
}

/// Where the models are nowhere, they are expected in the directory `models` of the working
/// directory.
pub proof fn law_missing_models_are_expected_at_hand(
    candidates: Seq<CandidateView>,
    exists: Seq<bool>,
    i: int,
)
    requires
        exists.len() == candidates.len(),
        0 <= i <= candidates.len(),
        forall|j: int| i <= j < exists.len() ==> !(#[trigger] exists[j]),
    ensures
        first_found(candidates, exists, i).root == Root::WorkingDir,
        first_found(candidates, exists, i).path == "models"@,
    decreases candidates.len() - i,
{
    if i < candidates.len() {
        law_missing_models_are_expected_at_hand(candidates, exists, i + 1);
    }
}

/// The socket is where a variable says, whatever else is known; without one it is in the runtime
/// directory of the user, and only where there is none in the directory that all users share.
pub proof fn law_the_socket_is_shared_only_where_it_must_be(runtime_dir: bool)
    ensures
        socket_place(true, runtime_dir).root == Root::Given,
        socket_place(true, runtime_dir).path == ""@,
        socket_place(false, runtime_dir).root == Root::RuntimeDir <==> runtime_dir,
        socket_place(false, true).path == "pi-speak.sock"@,
        socket_place(false, false).root == Root::FileSystem,
        socket_place(false, false).path == "/tmp/pi-speak.sock"@,
{
}

}
