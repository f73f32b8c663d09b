//! Configuration: where every input and output of the pipeline lives.
//!
//! Everything the pipeline touches is a setting, because every path in the repository has moved
//! at least once. Paths are held as text; joining follows `Path::join` on Unix.
use vstd::prelude::*;
use crate::catalog::{lex_lt, text_lt};
use crate::text::{chars_of, ends_with_chars, has_suffix, join, path_join, same_text};

verus! {

/// Where the fork's planetiler jar is published. A tag that moves, so this is always the newest.
pub const DEFAULT_JAR_URL: &'static str =
    "https://github.com/Akylas/alpimaps_data_generator/releases/download/planetiler-latest/planetiler-with-deps.jar";

/// One buildable area. `name` is both the output subdirectory and planetiler's `--area`.
#[derive(Debug, Clone, PartialEq)]
pub struct AreaConfig {
    pub name: String,
    /// `--polygon`, clipping the build to a shape rather than the extract's bbox.
    pub poly: Option<String>,
}

#[derive(Debug, Clone, PartialEq)]
pub struct Settings {
    /// Root of the data-generator checkout; the default for every other path hangs off it.
    pub repo_root: String,
    /// Where areas and their artifacts live. One subdirectory per area.
    pub output_root: String,
    /// Planetiler's source downloads (`data/sources`).
    pub data_dir: String,
    /// Parent for per-run temp dirs. Never shared between two concurrent runs.
    pub tmp_dir: String,
    pub elevation_tiles_dir: String,
    pub sources_json: String,
    /// Override for JRE discovery; `None` means probe `$JAVA_HOME` then `$PATH`.
    pub java_home: Option<String>,
    pub planetiler_jar: Option<String>,
    /// Where to fetch the planetiler jar when there is none.
    pub planetiler_jar_url: Option<String>,
    pub valhalla_bin_dir: Option<String>,
    /// The `valhalla.json` used as the template for routing.
    pub valhalla_config: Option<String>,
    pub heap_mb: u32,
    /// Passed as `--loginterval`.
    pub log_interval: String,
    pub areas: Vec<AreaConfig>,
    /// Where the front end's own bundled files live. Discovered at run time, never stored.
    pub resource_dir: Option<String>,
    /// Where a downloaded jar is kept. Discovered at run time, never stored.
    pub jar_dir: Option<String>,
}

pub open spec fn text_of(o: Option<String>) -> Option<Seq<char>> {
    match o {
        Some(s) => Some(s@),
        None => None,
    }
}

/// The defaults for a checkout at `root`, field by field.
pub open spec fn is_default_for(s: Settings, root: Seq<char>) -> bool {
    &&& s.repo_root@ == root
    &&& s.output_root@ == path_join(root, "alpimaps_mbtiles"@)
    &&& s.data_dir@ == path_join(root, "data/sources"@)
    &&& s.tmp_dir@ == path_join(root, "data/tmp"@)
    &&& s.elevation_tiles_dir@ == path_join(root, "elevation_tiles"@)
    &&& s.sources_json@ == path_join(root, "sources.json"@)
    &&& s.java_home is None
    &&& s.planetiler_jar is None
    &&& text_of(s.planetiler_jar_url) == Some(DEFAULT_JAR_URL@)
    &&& text_of(s.valhalla_bin_dir) == Some(path_join(root, "valhalla/build"@))
    &&& text_of(s.valhalla_config) == Some(path_join(root, "valhalla.json"@))
    &&& s.heap_mb == 12288
    &&& s.log_interval@ == "1s"@
    &&& s.areas@.len() == 0
    &&& s.resource_dir is None
    &&& s.jar_dir is None
}

impl Settings {
    /// Defaults matching the repository's actual layout.
    pub fn for_repo(repo_root: String) -> (s: Self)
        ensures
            is_default_for(s, repo_root@),
    {
        let root = repo_root.as_str();
        Settings {
            output_root: join(root, "alpimaps_mbtiles"),
            data_dir: join(root, "data/sources"),
            tmp_dir: join(root, "data/tmp"),
            elevation_tiles_dir: join(root, "elevation_tiles"),
            sources_json: join(root, "sources.json"),
            java_home: None,
            planetiler_jar: None,
            planetiler_jar_url: Some(String::from_str(DEFAULT_JAR_URL)),
            valhalla_bin_dir: Some(join(root, "valhalla/build")),
            valhalla_config: Some(join(root, "valhalla.json")),
            heap_mb: 12288,
            log_interval: String::from_str("1s"),
            areas: Vec::new(),
            resource_dir: None,
            jar_dir: None,
            repo_root: repo_root.clone(),
        }
    }

    /// Per-run temp directory, keyed by area.
    pub fn run_tmp_dir(&self, area: &str) -> (p: String)
        ensures
            p@ == path_join(self.tmp_dir@, area@),
    {
        join(self.tmp_dir.as_str(), area)
    }

    pub fn area_dir(&self, area: &str) -> (p: String)
        ensures
            p@ == path_join(self.output_root@, area@),
    {
        join(self.output_root.as_str(), area)
    }

    /// The `valhalla.json` shipped with the app, when there is a resource directory.
    pub fn bundled_valhalla_config(&self) -> (p: Option<String>)
        ensures
            text_of(p) == match self.resource_dir {
                Some(dir) => Some(path_join(dir@, "valhalla.json"@)),
                None => None,
            },
    {
        match &self.resource_dir {
            Some(dir) => Some(join(dir.as_str(), "valhalla.json")),
            None => None,
        }
    }

    /// Where the Valhalla config template lives: the one configured, else the one shipped with
    /// the app when `bundled_is_file` says it is there, else the repository's.
    pub fn valhalla_config_path(&self, bundled_is_file: bool) -> (p: String)
        ensures
            p@ == match self.valhalla_config {
                Some(c) => c@,
                None => match self.resource_dir {
                    Some(dir) => if bundled_is_file {
                        path_join(dir@, "valhalla.json"@)
                    } else {
                        path_join(self.repo_root@, "valhalla.json"@)
                    },
                    None => path_join(self.repo_root@, "valhalla.json"@),
                },
            },
    {
        if let Some(path) = &self.valhalla_config {
            return path.clone();
        }
        if let Some(dir) = &self.resource_dir {
            if bundled_is_file {
                return join(dir.as_str(), "valhalla.json");
            }
        }
        join(self.repo_root.as_str(), "valhalla.json")
    }

    /// Where to look for `valhalla_build_tiles` and friends, in order.
    pub fn valhalla_bin_dirs(&self) -> (dirs: Vec<String>)
        ensures
            dirs@.map_values(|d: String| d@) == (match self.valhalla_bin_dir {
                Some(d) => seq![d@],
                None => Seq::empty(),
            }) + (match self.resource_dir {
                Some(r) => seq![path_join(r@, "valhalla"@), r@],
                None => Seq::empty(),
            }) + seq![path_join(self.repo_root@, "valhalla/build"@)],
    {
        let mut dirs: Vec<String> = Vec::new();
        if let Some(dir) = &self.valhalla_bin_dir {
            dirs.push(dir.clone());
        }
        if let Some(dir) = &self.resource_dir {
            dirs.push(join(dir.as_str(), "valhalla"));
            dirs.push(dir.clone());
        }
        dirs.push(join(self.repo_root.as_str(), "valhalla/build"));
        assert(dirs@.map_values(|d: String| d@) =~= (match self.valhalla_bin_dir {
            Some(d) => seq![d@],
            None => Seq::empty(),
        }) + (match self.resource_dir {
            Some(r) => seq![path_join(r@, "valhalla"@), r@],
            None => Seq::empty(),
        }) + seq![path_join(self.repo_root@, "valhalla/build"@)]);
        dirs
    }

    /// The configured area with this name: the first one listed, if any.
    pub fn area(&self, name: &str) -> (r: Option<&AreaConfig>)
        ensures
            r matches Some(a) ==> exists|i: int|
                0 <= i < self.areas@.len() && self.areas@[i] == *a && a.name@ == name@ && forall|
                    j: int,
                | 0 <= j < i ==> #[trigger] self.areas@[j].name@ != name@,
            r is None ==> forall|j: int|
                0 <= j < self.areas@.len() ==> #[trigger] self.areas@[j].name@ != name@,
    {
        let mut i: usize = 0;
        while i < self.areas.len()
            invariant
                i <= self.areas@.len(),
                forall|j: int| 0 <= j < i ==> #[trigger] self.areas@[j].name@ != name@,
            decreases self.areas@.len() - i,
        {
            if same_text(self.areas[i].name.as_str(), name) {
                return Some(&self.areas[i]);
            }
            i = i + 1;
        }
        None
    }
}

impl Default for Settings {
    fn default() -> (s: Self)
        ensures
            is_default_for(s, "."@),
    {
        Self::for_repo(String::from_str("."))
    }
}

} // verus!

verus! {

/// What `Path::parent` gives for a path held as text: the path without its final component, or
/// nothing for a root, a prefix or the empty path.
pub uninterp spec fn path_parent(p: Seq<char>) -> Option<Seq<char>>;

/// Wraps `std::path::Path::parent`. The result depends on the text alone; it is not spelled out
/// here, since it follows the path's component rules (repeated and trailing separators, `.`).
#[verifier::external_body]
fn parent_of(p: &str) -> (r: Option<String>)
    ensures
        text_of(r) == path_parent(p@),
{
    std::path::Path::new(p).parent().map(|q| q.to_string_lossy().into_owned())
}

/// The directories tried when looking for a checkout: `start`, then up to `n - 1` ancestors.
pub open spec fn ancestry(start: Seq<char>, n: nat) -> Seq<Seq<char>>
    decreases n,
{
    if n == 0 {
        Seq::empty()
    } else {
        seq![start] + match path_parent(start) {
            Some(p) => ancestry(p, (n - 1) as nat),
            None => Seq::empty(),
        }
    }
}

/// The first directory marked as a checkout, if any.
pub open spec fn first_marked(dirs: Seq<Seq<char>>, marked: Seq<bool>) -> Option<Seq<char>>
    decreases dirs.len(),
{
    if dirs.len() == 0 || marked.len() == 0 {
        None
    } else if marked[0] {
        Some(dirs[0])
    } else {
        first_marked(dirs.drop_first(), marked.drop_first())
    }
}

/// The first of `paths` whose probe in `present` came back true: the lookups that try a list
/// of places in order and take the first that exists.
pub fn first_present(paths: &[String], present: &[bool]) -> (r: Option<String>)
    ensures
        text_of(r) == first_marked(crate::planetiler::texts(paths@), present@),
{
    let mut i: usize = 0;
    assert(crate::planetiler::texts(paths@).skip(0) =~= crate::planetiler::texts(paths@));
    assert(present@.skip(0) =~= present@);
    while i < paths.len() && i < present.len()
        invariant
            i <= paths@.len(),
            i <= present@.len(),
            first_marked(crate::planetiler::texts(paths@), present@)
                == first_marked(crate::planetiler::texts(paths@).skip(i as int), present@.skip(i as int)),
        decreases paths@.len() - i,
    {
        let ghost d = crate::planetiler::texts(paths@).skip(i as int);
        assert(d.drop_first() =~= crate::planetiler::texts(paths@).skip(i + 1));
        assert(present@.skip(i as int).drop_first() =~= present@.skip(i + 1));
        assert(d[0] == paths@[i as int]@);
        if present[i] {
            return Some(paths[i].clone());
        }
        i = i + 1;
    }
    assert(crate::planetiler::texts(paths@).skip(i as int).len() == 0 || present@.skip(i as int).len() == 0);
    None
}

/// A planetiler jar, by the name the fork's build gives it.
pub open spec fn is_jar_name(name: Seq<char>) -> bool {
    has_suffix(name, "-with-deps.jar"@)
}

/// The last of the jar names in text order: the newest release.
pub open spec fn newest_name(names: Seq<Seq<char>>) -> Option<Seq<char>>
    decreases names.len(),
{
    if names.len() == 0 {
        None
    } else {
        let rest = newest_name(names.drop_last());
        let n = names.last();
        if !is_jar_name(n) {
            rest
        } else {
            match rest {
                Some(m) => if lex_lt(m, n) { Some(n) } else { Some(m) },
                None => Some(n),
            }
        }
    }
}

/// The most recently modified jar; of two as recent, the later one listed.
pub open spec fn latest(found: Seq<(Seq<char>, u64)>) -> Option<Seq<char>>
    decreases found.len(),
{
    if found.len() == 0 {
        None
    } else {
        let last = found.last();
        match latest_time(found.drop_last()) {
            Some(t) => if t > last.1 { latest(found.drop_last()) } else { Some(last.0) },
            None => Some(last.0),
        }
    }
}

/// The modification time of `latest(found)`.
pub open spec fn latest_time(found: Seq<(Seq<char>, u64)>) -> Option<u64>
    decreases found.len(),
{
    if found.len() == 0 {
        None
    } else {
        let last = found.last();
        match latest_time(found.drop_last()) {
            Some(t) => if t > last.1 { Some(t) } else { Some(last.1) },
            None => Some(last.1),
        }
    }
}

/// The newest planetiler jar among the file names of one directory, as a path in it: the last
/// in name order of those ending in `-with-deps.jar`.
pub fn newest_jar(dir: &str, names: &[String]) -> (r: Option<String>)
    ensures
        text_of(r) == match newest_name(crate::planetiler::texts(names@)) {
            Some(n) => Some(path_join(dir@, n)),
            None => None,
        },
{
    let suffix = chars_of("-with-deps.jar");
    let mut best: Option<Vec<char>> = None;
    let mut i: usize = 0;
    while i < names.len()
        invariant
            i <= names@.len(),
            suffix@ == "-with-deps.jar"@,
            match best {
                Some(b) => newest_name(crate::planetiler::texts(names@.take(i as int))) == Some(b@),
                None => newest_name(crate::planetiler::texts(names@.take(i as int))) is None,
            },
        decreases names@.len() - i,
    {
        let ghost prefix = crate::planetiler::texts(names@.take(i + 1));
        assert(prefix.drop_last() =~= crate::planetiler::texts(names@.take(i as int)));
        let n = chars_of(names[i].as_str());
        if ends_with_chars(&n, suffix.as_slice()) {
            let replace = match &best {
                Some(b) => text_lt(b, &n),
                None => true,
            };
            if replace {
                best = Some(n);
            }
        }
        i = i + 1;
    }
    assert(names@.take(names@.len() as int) =~= names@);
    match best {
        Some(b) => Some(crate::text::join_chars(dir, &b)),
        None => None,
    }
}

impl Settings {
    /// The directories where a checkout is looked for: `start` and up to three of its ancestors.
    pub fn repo_candidates(start: &str) -> (dirs: Vec<String>)
        ensures
            crate::planetiler::texts(dirs@) == ancestry(start@, 4),
    {
        let mut dirs: Vec<String> = Vec::new();
        let mut dir = String::from_str(start);
        let mut n: usize = 4;
        while n > 0
            invariant
                n <= 4,
                crate::planetiler::texts(dirs@) + ancestry(dir@, n as nat) == ancestry(start@, 4),
            decreases n,
        {
            let parent = parent_of(dir.as_str());
            let ghost here = dir@;
            let ghost before = crate::planetiler::texts(dirs@);
            dirs.push(dir);
            assert(crate::planetiler::texts(dirs@) =~= before.push(here));
            match parent {
                Some(p) => {
                    dir = p;
                    n = n - 1;
                    assert(before + ancestry(here, (n + 1) as nat) =~= crate::planetiler::texts(dirs@) + ancestry(dir@, n as nat));
                },
                None => {
                    assert(crate::planetiler::texts(dirs@) =~= before + ancestry(here, (n) as nat));
                    return dirs;
                },
            }
        }
        assert(crate::planetiler::texts(dirs@) =~= crate::planetiler::texts(dirs@) + ancestry(dir@, 0));
        dirs
    }

    /// The paths whose presence marks a checkout, a file and a directory that a checkout has
    /// and nothing else does.
    pub fn checkout_markers(dir: &str) -> (m: (String, String))
        ensures
            m.0@ == path_join(dir@, "valhalla.json"@),
            m.1@ == path_join(dir@, "planetiler"@),
    {
        (join(dir, "valhalla.json"), join(dir, "planetiler"))
    }

    /// Find the repository from a starting directory, climbing a few levels. `is_checkout[i]`
    /// says whether the `i`-th of `repo_candidates(start)` holds a checkout's markers. When none
    /// does, `start` itself is the answer: a packaged install falls back to its bundled
    /// resources.
    pub fn locate_repo(start: &str, is_checkout: &[bool]) -> (root: String)
        ensures
            root@ == match first_marked(ancestry(start@, 4), is_checkout@) {
                Some(d) => d,
                None => start@,
            },
    {
        let dirs = Self::repo_candidates(start);
        let mut i: usize = 0;
        assert(crate::planetiler::texts(dirs@).skip(0) =~= crate::planetiler::texts(dirs@));
        assert(is_checkout@.skip(0) =~= is_checkout@);
        while i < dirs.len() && i < is_checkout.len()
            invariant
                i <= dirs@.len(),
                i <= is_checkout@.len(),
                crate::planetiler::texts(dirs@) == ancestry(start@, 4),
                first_marked(ancestry(start@, 4), is_checkout@)
                    == first_marked(crate::planetiler::texts(dirs@).skip(i as int), is_checkout@.skip(i as int)),
            decreases dirs@.len() - i,
        {
            let ghost d = crate::planetiler::texts(dirs@).skip(i as int);
            assert(d.drop_first() =~= crate::planetiler::texts(dirs@).skip(i + 1));
            assert(is_checkout@.skip(i as int).drop_first() =~= is_checkout@.skip(i + 1));
            assert(d[0] == dirs@[i as int]@);
            if is_checkout[i] {
                return dirs[i].clone();
            }
            i = i + 1;
        }
        assert(crate::planetiler::texts(dirs@).skip(i as int).len() == 0 || is_checkout@.skip(i as int).len() == 0);
        String::from_str(start)
    }

    /// Where the submodule's build leaves its jar.
    pub fn checkout_jar_dir(&self) -> (p: String)
        ensures
            p@ == path_join(self.repo_root@, "planetiler/planetiler-dist/target"@),
    {
        join(self.repo_root.as_str(), "planetiler/planetiler-dist/target")
    }

    /// The planetiler jar to run.
    ///
    /// The configured one when `configured_is_file` says it is there. Otherwise the most recently
    /// modified of the jars found, each with its modification time: the newest in the app's jar
    /// directory, in the bundle's resources, and in the checkout's build, in that order. Newest
    /// wins, so a jar that was just rebuilt is the one that runs.
    pub fn planetiler_jar_path(&self, configured_is_file: bool, found: &[(String, u64)]) -> (jar: Option<String>)
        ensures
            text_of(jar) == match self.planetiler_jar {
                Some(j) if configured_is_file => Some(j@),
                _ => latest(found@.map_values(|f: (String, u64)| (f.0@, f.1))),
            },
    {
        if let Some(jar) = &self.planetiler_jar {
            if configured_is_file {
                return Some(jar.clone());
            }
        }
        let ghost all = found@.map_values(|f: (String, u64)| (f.0@, f.1));
        let mut best: Option<usize> = None;
        let mut i: usize = 0;
        while i < found.len()
            invariant
                i <= found@.len(),
                all == found@.map_values(|f: (String, u64)| (f.0@, f.1)),
                match best {
                    Some(b) => b < i && latest(all.take(i as int)) == Some(all[b as int].0)
                        && latest_time(all.take(i as int)) == Some(found@[b as int].1),
                    None => i == 0 && latest(all.take(i as int)) is None,
                },
            decreases found@.len() - i,
        {
            assert(all.take(i + 1).drop_last() =~= all.take(i as int));
            let take = match best {
                Some(b) => !(found[b].1 > found[i].1),
                None => true,
            };
            if take {
                best = Some(i);
            }
            i = i + 1;
        }
        assert(all.take(found@.len() as int) =~= all);
        match best {
            Some(b) => Some(found[b].0.clone()),
            None => None,
        }
    }
}


/// The URL to fetch a planetiler jar from: the one given, else the configured one, and neither
/// when the one chosen is blank.
pub open spec fn jar_url_choice(given: Option<Seq<char>>, configured: Option<Seq<char>>) -> Option<Seq<char>> {
    let chosen = match given {
        Some(g) => Some(g),
        None => configured,
    };
    match chosen {
        Some(u) => if crate::text::trim(u).len() > 0 { Some(u) } else { None },
        None => None,
    }
}

/// Where to fetch the jar from when none was found; see `jar_url_choice`.
pub fn jar_url(given: Option<&str>, configured: Option<&str>) -> (r: Option<String>)
    ensures
        text_of(r) == jar_url_choice(
            match given { Some(g) => Some(g@), None => None },
            match configured { Some(c) => Some(c@), None => None },
        ),
{
    let chosen = match given {
        Some(g) => Some(g),
        None => configured,
    };
    match chosen {
        Some(u) => {
            let v = chars_of(u);
            let t = crate::text::trim_vec(&v);
            if t.len() > 0 {
                Some(String::from_str(u))
            } else {
                None
            }
        },
        None => None,
    }
}

/// The text after the last `/`, or all of it when there is none.
pub open spec fn last_segment(u: Seq<char>) -> Seq<char>
    decreases u.len(),
{
    if u.len() == 0 {
        u
    } else if u.last() == '/' {
        Seq::empty()
    } else {
        last_segment(u.drop_last()).push(u.last())
    }
}

/// `n` with every trailing `.jar` taken off.
pub open spec fn without_jar_ext(n: Seq<char>) -> Seq<char>
    decreases n.len(),
{
    if n.len() >= 4 && has_suffix(n, ".jar"@) {
        without_jar_ext(n.take(n.len() - 4))
    } else {
        n
    }
}

/// What a downloaded jar is saved as: the URL's file name, made to end in `-with-deps.jar` so
/// the jar lookup, which goes by that ending, finds it next time.
pub open spec fn jar_file_name(url: Seq<char>) -> Seq<char> {
    let n = last_segment(url);
    if has_suffix(n, "-with-deps.jar"@) {
        n
    } else {
        without_jar_ext(n) + "-with-deps.jar"@
    }
}

/// The file name a jar fetched from `url` is kept under; see `jar_file_name`.
pub fn downloaded_jar_name(url: &str) -> (r: String)
    ensures
        r@ == jar_file_name(url@),
{
    let v = chars_of(url);
    let mut start: usize = 0;
    let mut i: usize = 0;
    while i < v.len()
        invariant
            i <= v@.len(),
            start <= i,
            v@ == url@,
            last_segment(v@.take(i as int)) == v@.subrange(start as int, i as int),
        decreases v@.len() - i,
    {
        assert(v@.take(i + 1).drop_last() =~= v@.take(i as int));
        if v[i] == '/' {
            start = i + 1;
            assert(v@.subrange(start as int, i + 1) =~= Seq::<char>::empty());
        } else {
            assert(v@.subrange(start as int, i + 1) =~= v@.subrange(start as int, i as int).push(v@[i as int]));
        }
        i = i + 1;
    }
    assert(v@.take(i as int) =~= v@);
    let mut n = crate::text::slice_of(&v, start, v.len());
    let keep = chars_of("-with-deps.jar");
    if ends_with_chars(&n, keep.as_slice()) {
        return crate::text::string_of(n.as_slice());
    }
    let ext = chars_of(".jar");
    while n.len() >= 4 && ends_with_chars(&n, ext.as_slice())
        invariant
            without_jar_ext(n@) == without_jar_ext(last_segment(url@)),
            ext@ == ".jar"@,
        decreases n@.len(),
    {
        let k = n.len() - 4;
        n = crate::text::slice_of(&n, 0, k);
    }
    let mut out = n;
    crate::text::push_all(&mut out, keep.as_slice());
    crate::text::string_of(out.as_slice())
}

} // verus!
