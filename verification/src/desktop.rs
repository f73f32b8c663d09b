//! What the desktop app decides: typed argument strings, the command reference read from the
//! command-line binary's own help, the step list it shows, what clearing a build removes, where
//! it looks for the binary, and which tile directory a route is computed on.
use vstd::prelude::*;
use crate::options::{
    basemap_extra_keys, common_keys, keys_and_flags, package_keys, routes_extra_keys, step_options, terrain_keys,
};
use crate::planetiler::texts;
use crate::catalog::{sort_texts, sorted_texts};
use crate::settings::{AreaConfig, Settings};
use crate::state::{output_paths, outputs_for};
use crate::text::{decimal, join, path_join};
use crate::steps::{command_text, deps_of, label_text, reads_text, summary_text, StepId};
use crate::text::{
    chars_of, has_prefix, line_end, line_spans, is_whitespace, is_ws, run, run_end, slice_of, string_of, trim, trim_vec,
    Class,
};

verus! {

/// Where a quote-aware split has got to.
pub struct SplitState {
    pub out: Seq<Seq<char>>,
    pub current: Seq<char>,
    pub quote: Option<char>,
    /// A quote was opened since the last argument ended, so even an empty one counts.
    pub any: bool,
}

pub open spec fn split_step(st: SplitState, ch: char) -> SplitState {
    match st.quote {
        Some(q) => if ch == q {
            SplitState { quote: None, ..st }
        } else {
            SplitState { current: st.current.push(ch), ..st }
        },
        None => if ch == '\'' || ch == '"' {
            SplitState { quote: Some(ch), any: true, ..st }
        } else if is_ws(ch) {
            if st.any || st.current.len() > 0 {
                SplitState { out: st.out.push(st.current), current: Seq::empty(), quote: None, any: false }
            } else {
                st
            }
        } else {
            SplitState { current: st.current.push(ch), ..st }
        },
    }
}

/// The state after reading the first `n` characters of `s`.
pub open spec fn split_prefix(s: Seq<char>, n: int) -> SplitState
    decreases n,
{
    if n <= 0 {
        SplitState { out: Seq::empty(), current: Seq::empty(), quote: None, any: false }
    } else {
        split_step(split_prefix(s, n - 1), s[n - 1])
    }
}

/// The arguments a shell would see: white space separates arguments outside quotes, a quote
/// (`'` or `"`) runs to the next of the same kind, and quotes themselves are dropped. An
/// argument that was quoted counts even when empty.
pub open spec fn shell_words(s: Seq<char>) -> Seq<Seq<char>> {
    let st = split_prefix(s, s.len() as int);
    if st.any || st.current.len() > 0 {
        st.out.push(st.current)
    } else {
        st.out
    }
}

/// Split a typed argument string the way a shell would, honouring quotes, so
/// `--polygon='/tmp/my area.poly'` arrives as one argument.
pub fn split_args(raw: &str) -> (args: Vec<String>)
    ensures
        texts(args@) == shell_words(raw@),
{
    let s = chars_of(raw);
    let mut out: Vec<String> = Vec::new();
    let mut current: Vec<char> = Vec::new();
    let mut quote: Option<char> = None;
    let mut any = false;
    let mut i: usize = 0;
    assert(texts(out@) =~= Seq::<Seq<char>>::empty());
    while i < s.len()
        invariant
            i <= s@.len(),
            split_prefix(s@, i as int) == (SplitState {
                out: texts(out@),
                current: current@,
                quote,
                any,
            }),
        decreases s@.len() - i,
    {
        let ch = s[i];
        match quote {
            Some(q) => {
                if ch == q {
                    quote = None;
                } else {
                    current.push(ch);
                }
            },
            None => {
                if ch == '\'' || ch == '"' {
                    quote = Some(ch);
                    any = true;
                } else if is_whitespace(ch) {
                    if any || current.len() > 0 {
                        let word = string_of(current.as_slice());
                        out.push(word);
                        current = Vec::new();
                        any = false;
                    }
                } else {
                    current.push(ch);
                }
            },
        }
        i = i + 1;
        assert(texts(out@) =~= split_prefix(s@, i as int).out);
        assert(current@ =~= split_prefix(s@, i as int).current);
    }
    if any || current.len() > 0 {
        out.push(string_of(current.as_slice()));
    }
    assert(texts(out@) =~= shell_words(raw@));
    out
}

/// One line of the Commands block: the name, and the rest of the line as its description.
pub open spec fn command_entry(line: Seq<char>) -> (Seq<char>, Seq<char>) {
    let t = trim(line);
    let n = run(t, 0, Class::NotSpace) as int;
    (t.subrange(0, n), if n < t.len() {
        trim(t.subrange(n + 1, t.len() as int))
    } else {
        Seq::empty()
    })
}

/// Walks the lines from index `i`: once a line starting `Commands:` (after indentation) has been
/// seen, every line up to the first blank one is a command, except `help`.
pub open spec fn commands_from(s: Seq<char>, lines: Seq<(int, int)>, i: int, inside: bool) -> Seq<
    (Seq<char>, Seq<char>),
>
    decreases lines.len() - i,
{
    if i < 0 || i >= lines.len() {
        Seq::empty()
    } else {
        let line = s.subrange(lines[i].0, lines[i].1);
        let rest = line.subrange(run(line, 0, Class::Space) as int, line.len() as int);
        if has_prefix(rest, "Commands:"@) {
            commands_from(s, lines, i + 1, true)
        } else if !inside {
            commands_from(s, lines, i + 1, false)
        } else if trim(line).len() == 0 {
            Seq::empty()
        } else if command_entry(line).0 == "help"@ {
            commands_from(s, lines, i + 1, true)
        } else {
            seq![command_entry(line)] + commands_from(s, lines, i + 1, true)
        }
    }
}

pub open spec fn command_list(usage: Seq<char>) -> Seq<(Seq<char>, Seq<char>)> {
    commands_from(usage, line_spans(usage, 0), 0, false)
}

pub open spec fn pair_texts(v: Seq<(String, String)>) -> Seq<(Seq<char>, Seq<char>)> {
    v.map_values(|p: (String, String)| (p.0@, p.1@))
}

fn entry_of(line: &Vec<char>) -> (r: (Vec<char>, Vec<char>))
    ensures
        (r.0@, r.1@) == command_entry(line@),
{
    let t = trim_vec(line);
    let n = run_end(&t, 0, Class::NotSpace);
    let name = slice_of(&t, 0, n);
    let desc = if n < t.len() {
        let rest = slice_of(&t, n + 1, t.len());
        trim_vec(&rest)
    } else {
        Vec::new()
    };
    (name, desc)
}

/// Pull `(name, description)` out of the Commands block of clap's top-level help. The block
/// ends at the first blank line, and `help` is dropped - it documents clap, not the pipeline.
pub fn command_lines(usage: &str) -> (out: Vec<(String, String)>)
    ensures
        pair_texts(out@) == command_list(usage@),
{
    let s = chars_of(usage);
    let mut out: Vec<(String, String)> = Vec::new();
    let mut inside = false;
    let mut start: usize = 0;
    let ghost lines = line_spans(s@, 0);
    let ghost mut li: int = 0;
    while start < s.len()
        invariant
            start <= s@.len(),
            0 <= li <= lines.len(),
            lines == line_spans(s@, 0),
            lines.subrange(li, lines.len() as int) == line_spans(s@, start as int),
            command_list(usage@) == pair_texts(out@) + commands_from(s@, lines, li, inside),
            s@ == usage@,
        decreases s@.len() - start,
    {
        let (end, e) = line_end(&s, start);
        let ghost spans = line_spans(s@, start as int);
        let ghost tail = if e < s@.len() {
            line_spans(s@, e + 1)
        } else {
            Seq::<(int, int)>::empty()
        };
        proof {
            assert(spans =~= seq![(start as int, end as int)] + tail);
            assert(lines.subrange(li, lines.len() as int)[0] == lines[li]);
            assert(lines[li] == (start as int, end as int));
            assert(lines.subrange(li + 1, lines.len() as int) =~= spans.subrange(1, spans.len() as int));
            assert(spans.subrange(1, spans.len() as int) =~= tail);
        }
        let line = slice_of(&s, start, end);
        let ind = run_end(&line, 0, Class::Space);
        let rest = slice_of(&line, ind, line.len());
        let marker = chars_of("Commands:");
        let ghost next = if e < s@.len() { e + 1 } else { e as int };
        if crate::text::starts_with_chars(&rest, marker.as_slice()) {
            inside = true;
        } else if inside {
            let t = trim_vec(&line);
            if t.len() == 0 {
                assert(commands_from(s@, lines, li, inside) == Seq::<(Seq<char>, Seq<char>)>::empty());
                assert(pair_texts(out@) =~= pair_texts(out@) + Seq::<(Seq<char>, Seq<char>)>::empty());
                return out;
            }
            let (name, desc) = entry_of(&line);
            if !crate::text::is_text(&name, "help") {
                let ghost before = out@;
                out.push((string_of(name.as_slice()), string_of(desc.as_slice())));
                assert(pair_texts(out@) =~= pair_texts(before) + seq![command_entry(line@)]);
            }
        }
        proof {
            li = li + 1;
        }
        start = if e < s.len() {
            e + 1
        } else {
            e
        };
    }
    proof {
        assert(li == lines.len()) by {
            assert(line_spans(s@, start as int) =~= Seq::<(int, int)>::empty());
        }
    }
    assert(pair_texts(out@) + Seq::<(Seq<char>, Seq<char>)>::empty() =~= pair_texts(out@));
    out
}


/// Every step, in the order the app lists them.
pub open spec fn listed_steps() -> Seq<StepId> {
    seq![
        StepId::DownloadOsm,
        StepId::ElevationTiles,
        StepId::Basemap,
        StepId::Routes,
        StepId::TerrainRgb,
        StepId::Hillshade,
        StepId::ValhallaTiles,
        StepId::ValhallaPackage,
    ]
}

/// The keys and flags of the options a step's form offers.
pub open spec fn option_rows(step: StepId) -> Seq<(Seq<char>, Seq<char>)> {
    match step {
        StepId::Routes => common_keys() + routes_extra_keys(),
        StepId::Basemap => common_keys() + basemap_extra_keys(),
        StepId::TerrainRgb | StepId::Hillshade => terrain_keys(),
        StepId::ValhallaPackage => package_keys(),
        _ => Seq::empty(),
    }
}

/// One step as the app lists it for an area.
#[derive(Debug, Clone)]
pub struct StepInfo {
    pub id: StepId,
    pub label: &'static str,
    pub deps: Vec<StepId>,
    pub implemented: bool,
    /// What the step does.
    pub summary: &'static str,
    /// What it needs beyond its dependencies.
    pub reads: &'static str,
    /// Where it writes, resolved for the area being looked at.
    pub writes: Vec<String>,
    /// The subcommand that runs it.
    pub command: &'static str,
    /// How many options its form offers.
    pub option_count: usize,
}

/// Whether `info` describes `step` for `area`.
pub open spec fn describes(info: StepInfo, s: Settings, area: Seq<char>, step: StepId) -> bool {
    &&& info.id == step
    &&& info.label@ == label_text(step)
    &&& info.deps@ == deps_of(step)
    &&& info.implemented
    &&& info.summary@ == summary_text(step)
    &&& info.reads@ == reads_text(step)
    &&& texts(info.writes@) == output_paths(s, area, step)
    &&& info.command@ == command_text(step)
    &&& info.option_count == option_rows(step).len()
}

/// What the app shows for one step of an area.
pub fn step_info(settings: &Settings, area: &str, step: StepId) -> (info: StepInfo)
    ensures
        describes(info, *settings, area@, step),
{
    let deps = step.deps();
    let mut dv: Vec<StepId> = Vec::new();
    let mut i: usize = 0;
    while i < deps.len()
        invariant
            i <= deps@.len(),
            deps@ == deps_of(step),
            dv@ == deps@.take(i as int),
        decreases deps@.len() - i,
    {
        dv.push(deps[i]);
        i = i + 1;
        assert(dv@ =~= deps@.take(i as int));
    }
    assert(dv@ =~= deps@);
    let defs = step_options(step);
    assert(keys_and_flags(defs@).len() == defs@.len());
    StepInfo {
        id: step,
        label: step.label(),
        deps: dv,
        implemented: step.is_implemented(),
        summary: step.summary(),
        reads: step.reads(),
        writes: outputs_for(settings, area, step),
        command: step.command(),
        option_count: defs.len(),
    }
}

/// The placeholder an area-less listing resolves paths with.
pub open spec fn listed_area(area: Option<Seq<char>>) -> Seq<char> {
    match area {
        Some(a) => a,
        None => "<area>"@,
    }
}

/// Every step, described for `area`, or for a placeholder area when none is given.
pub fn list_steps(settings: &Settings, area: Option<&str>) -> (out: Vec<StepInfo>)
    ensures
        out@.len() == listed_steps().len(),
        forall|i: int| 0 <= i < out@.len() ==> describes(#[trigger] out@[i], *settings,
            listed_area(match area { Some(a) => Some(a@), None => None }), listed_steps()[i]),
{
    let a: &str = match area {
        Some(a) => a,
        None => "<area>",
    };
    proof {
        reveal_strlit("<area>");
    }
    let ghost wanted = listed_area(match area { Some(a) => Some(a@), None => None });
    assert(a@ == wanted);
    let order = vec![
        StepId::DownloadOsm,
        StepId::ElevationTiles,
        StepId::Basemap,
        StepId::Routes,
        StepId::TerrainRgb,
        StepId::Hillshade,
        StepId::ValhallaTiles,
        StepId::ValhallaPackage,
    ];
    assert(order@ =~= listed_steps());
    let mut out: Vec<StepInfo> = Vec::new();
    let mut i: usize = 0;
    while i < order.len()
        invariant
            i <= order@.len(),
            order@ == listed_steps(),
            a@ == wanted,
            out@.len() == i,
            forall|j: int| 0 <= j < i ==> describes(#[trigger] out@[j], *settings, wanted, listed_steps()[j]),
        decreases order@.len() - i,
    {
        let info = step_info(settings, a, order[i]);
        out.push(info);
        i = i + 1;
    }
    out
}

/// What clearing an area's build state comes down to.
#[derive(Debug, Clone)]
pub enum Clearing {
    /// Delete what these steps produced, in this order.
    RemoveOutputs(Vec<StepId>),
    /// Forget the recorded options of one step.
    Forget(StepId),
    /// Forget every recorded step.
    ForgetAll,
}

/// One step's outputs, or every step's when none is named, go when `delete_outputs` is set;
/// otherwise only the record is forgotten, which leaves the outputs and so the step skippable.
pub fn clearing_for(step: Option<StepId>, delete_outputs: Option<bool>) -> (c: Clearing)
    ensures
        match (step, delete_outputs) {
            (Some(s), Some(true)) => c matches Clearing::RemoveOutputs(v) && v@ == seq![s],
            (None, Some(true)) => c matches Clearing::RemoveOutputs(v) && v@ == listed_steps(),
            (Some(s), _) => c == Clearing::Forget(s),
            (None, _) => c is ForgetAll,
        },
{
    let delete = match delete_outputs {
        Some(d) => d,
        None => false,
    };
    match step {
        Some(s) => {
            if delete {
                let v = vec![s];
                assert(v@ =~= seq![s]);
                Clearing::RemoveOutputs(v)
            } else {
                Clearing::Forget(s)
            }
        },
        None => {
            if delete {
                let v = vec![
                    StepId::DownloadOsm,
                    StepId::ElevationTiles,
                    StepId::Basemap,
                    StepId::Routes,
                    StepId::TerrainRgb,
                    StepId::Hillshade,
                    StepId::ValhallaTiles,
                    StepId::ValhallaPackage,
                ];
                assert(v@ =~= listed_steps());
                Clearing::RemoveOutputs(v)
            } else {
                Clearing::ForgetAll
            }
        },
    }
}


/// Where to look for the command-line binary, in order: beside the app's executable (and where
/// a bundle keeps its resources), in the resource directory, then in each `PATH` directory.
pub open spec fn cli_paths(exe_dir: Option<Seq<char>>, resource_dir: Option<Seq<char>>, path_dirs: Seq<Seq<char>>) -> Seq<Seq<char>> {
    (match exe_dir {
        Some(d) => seq![path_join(d, "alpimaps"@), path_join(d, "../Resources/alpimaps"@), path_join(d, "alpimaps.exe"@)],
        None => Seq::empty(),
    }) + (match resource_dir {
        Some(d) => seq![path_join(d, "resources/alpimaps"@), path_join(d, "alpimaps"@)],
        None => Seq::empty(),
    }) + path_dirs.map_values(|d: Seq<char>| path_join(d, "alpimaps"@))
}

/// The places `cli_paths` names, to be probed in order; the first that is a file is the binary.
pub fn cli_candidates(exe_dir: Option<&str>, resource_dir: Option<&str>, path_dirs: &[String]) -> (c: Vec<String>)
    ensures
        texts(c@) == cli_paths(
            match exe_dir { Some(d) => Some(d@), None => None },
            match resource_dir { Some(d) => Some(d@), None => None },
            texts(path_dirs@),
        ),
{
    let ghost head = match exe_dir {
        Some(d) => seq![path_join(d@, "alpimaps"@), path_join(d@, "../Resources/alpimaps"@), path_join(d@, "alpimaps.exe"@)],
        None => Seq::<Seq<char>>::empty(),
    } + match resource_dir {
        Some(d) => seq![path_join(d@, "resources/alpimaps"@), path_join(d@, "alpimaps"@)],
        None => Seq::<Seq<char>>::empty(),
    };
    let mut c: Vec<String> = Vec::new();
    if let Some(d) = exe_dir {
        c.push(join(d, "alpimaps"));
        c.push(join(d, "../Resources/alpimaps"));
        c.push(join(d, "alpimaps.exe"));
    }
    if let Some(d) = resource_dir {
        c.push(join(d, "resources/alpimaps"));
        c.push(join(d, "alpimaps"));
    }
    assert(texts(c@) =~= head);
    let mut i: usize = 0;
    while i < path_dirs.len()
        invariant
            i <= path_dirs@.len(),
            texts(c@) == head + texts(path_dirs@).take(i as int).map_values(|d: Seq<char>| path_join(d, "alpimaps"@)),
        decreases path_dirs@.len() - i,
    {
        let ghost before = c@;
        c.push(join(path_dirs[i].as_str(), "alpimaps"));
        i = i + 1;
        assert(texts(c@) =~= texts(before).push(c@.last()@));
        assert(texts(path_dirs@).take(i as int).map_values(|d: Seq<char>| path_join(d, "alpimaps"@))
            =~= texts(path_dirs@).take(i - 1).map_values(|d: Seq<char>| path_join(d, "alpimaps"@))
                .push(path_join(path_dirs@[i - 1]@, "alpimaps"@)));
    }
    assert(texts(path_dirs@).take(i as int) =~= texts(path_dirs@));
    c
}


/// The package an area routes on: the one named, or `{area}.vtiles`. An area can hold several
/// (a `.base` variant, an older build).
pub open spec fn package_file(area: Seq<char>, package: Option<Seq<char>>) -> Seq<char> {
    match package {
        Some(p) => p,
        None => area + ".vtiles"@,
    }
}

/// Where that package sits, in the area's directory.
pub fn package_path(settings: &Settings, area: &str, package: Option<&str>) -> (p: String)
    ensures
        p@ == path_join(path_join(settings.output_root@, area@),
            package_file(area@, match package { Some(q) => Some(q@), None => None })),
{
    let dir = settings.area_dir(area);
    match package {
        Some(q) => join(dir.as_str(), q),
        None => {
            let name = crate::text::concat_str(area, ".vtiles");
            join(dir.as_str(), name.as_str())
        },
    }
}

/// Routing without a package falls back on the graph build's own output, when there is one.
pub open spec fn fallback_text(package: Seq<char>) -> Seq<char> {
    "no "@ + package + " and no valhalla_tiles/ to fall back on"@
}

/// The tile directory to route on when `package_path` is not a file: `valhalla_tiles/` in the
/// repository when `fallback_is_dir`, otherwise an error naming both.
pub fn fallback_tile_dir(settings: &Settings, package_path: &str, fallback_is_dir: bool) -> (r: Result<String, String>)
    ensures
        fallback_is_dir ==> (r matches Ok(d) && d@ == path_join(settings.repo_root@, "valhalla_tiles"@)),
        !fallback_is_dir ==> (r matches Err(m) && m@ == fallback_text(package_path@)),
{
    if fallback_is_dir {
        Ok(join(settings.repo_root.as_str(), "valhalla_tiles"))
    } else {
        let a = crate::text::concat_str("no ", package_path);
        Err(crate::text::concat_str(a.as_str(), " and no valhalla_tiles/ to fall back on"))
    }
}

/// A file name made safe as one path component.
pub open spec fn safe_component(name: Seq<char>) -> Seq<char> {
    name.map_values(|c: char| if c == '/' || c == '\\' { '_' } else { c })
}

/// What an unpack of the package is keyed by: its file name, or the area when the path has none.
pub open spec fn unpack_key(file_name: Option<Seq<char>>, area: Seq<char>) -> Seq<char> {
    match file_name {
        Some(n) => safe_component(n),
        None => area,
    }
}

/// The package's size and modification time, which change with every rebuild, or `unknown`.
pub open spec fn stamp_text(stamp: Option<(u64, u64)>) -> Seq<char> {
    match stamp {
        Some((len, modified)) => decimal(len as nat) + "-"@ + decimal(modified as nat),
        None => "unknown"@,
    }
}

/// Where an unpack is cached, and the name prefix that every unpack of the same package shares.
#[derive(Debug, Clone)]
pub struct UnpackDir {
    pub dir: String,
    /// Entries of the cache root starting with this are older unpacks of the same package.
    pub stale_prefix: String,
}

/// The cache directory for one build of a package, so that a rebuild unpacks afresh and an
/// unchanged package is unpacked once. `stamp` is the package's size and modification time in
/// seconds, when its metadata could be read.
pub fn unpack_dir(cache_root: &str, package_path: &str, area: &str, stamp: Option<(u64, u64)>) -> (u: UnpackDir)
    ensures
        u.stale_prefix@ == unpack_key(path_file_name(package_path@), area@) + "-"@,
        u.dir@ == path_join(cache_root@, u.stale_prefix@ + stamp_text(stamp)),
{
    let name = file_name_of(package_path);
    let mut key: Vec<char> = Vec::new();
    match name {
        Some(n) => {
            let cs = chars_of(n.as_str());
            let mut i: usize = 0;
            while i < cs.len()
                invariant
                    i <= cs@.len(),
                    key@ == safe_component(cs@.take(i as int)),
                decreases cs@.len() - i,
            {
                let c = cs[i];
                key.push(if c == '/' || c == '\\' { '_' } else { c });
                i = i + 1;
                assert(key@ =~= safe_component(cs@.take(i as int)));
            }
            assert(cs@.take(i as int) =~= cs@);
        },
        None => {
            key = chars_of(area);
        },
    }
    key.push('-');
    let prefix = string_of(key.as_slice());
    match stamp {
        Some((len, modified)) => {
            crate::text::push_decimal(&mut key, len);
            key.push('-');
            crate::text::push_decimal(&mut key, modified);
        },
        None => {
            let u = chars_of("unknown");
            crate::text::push_all(&mut key, u.as_slice());
        },
    }
    proof {
        reveal_strlit("unknown");
        reveal_strlit("-");
    }
    let tail = string_of(key.as_slice());
    assert(tail@ =~= prefix@ + stamp_text(stamp));
    UnpackDir { dir: join(cache_root, tail.as_str()), stale_prefix: prefix }
}

/// Whether a cache entry is an older unpack of the package `prefix` belongs to.
pub fn is_stale_unpack(entry: &str, prefix: &str) -> (r: bool)
    ensures
        r == has_prefix(entry@, prefix@),
{
    let e = chars_of(entry);
    let p = chars_of(prefix);
    crate::text::starts_with_chars(&e, p.as_slice())
}

/// The last component of a path, as `std::path::Path::file_name` reads it.
pub uninterp spec fn path_file_name(p: Seq<char>) -> Option<Seq<char>>;

/// Wraps `std::path::Path::file_name`. The result depends on the text alone; it is not spelled
/// out here, since it follows the path's component rules (a trailing `..` has none).
#[verifier::external_body]
fn file_name_of(p: &str) -> (r: Option<String>)
    ensures
        match r {
            Some(n) => path_file_name(p@) == Some(n@),
            None => path_file_name(p@) is None,
        },
{
    std::path::Path::new(p).file_name().map(|n| n.to_string_lossy().into_owned())
}


/// The found names, then each configured name not already among them.
pub open spec fn with_configured(found: Seq<Seq<char>>, configured: Seq<Seq<char>>) -> Seq<Seq<char>>
    decreases configured.len(),
{
    if configured.len() == 0 {
        found
    } else {
        let before = with_configured(found, configured.drop_last());
        if before.contains(configured.last()) {
            before
        } else {
            before.push(configured.last())
        }
    }
}

/// The names of configured areas, in order.
pub open spec fn area_names(configured: Seq<AreaConfig>) -> Seq<Seq<char>> {
    configured.map_values(|a: AreaConfig| a.name@)
}

fn contains_text(v: &Vec<String>, s: &str) -> (r: bool)
    ensures
        r == texts(v@).contains(s@),
{
    let mut i: usize = 0;
    while i < v.len()
        invariant
            i <= v@.len(),
            forall|j: int| 0 <= j < i ==> v@[j]@ != s@,
        decreases v@.len() - i,
    {
        if crate::text::same_text(v[i].as_str(), s) {
            assert(texts(v@)[i as int] == s@);
            return true;
        }
        i = i + 1;
    }
    proof {
        if texts(v@).contains(s@) {
            let j = choose|j: int| 0 <= j < texts(v@).len() && texts(v@)[j] == s@;
            assert(v@[j]@ == s@);
        }
    }
    false
}

/// The areas a listing offers: those found in the output root, where a half-finished build
/// shows up, together with each configured area not found there, in text order.
pub fn known_areas(found: Vec<String>, configured: &[AreaConfig]) -> (out: Vec<String>)
    ensures
        texts(out@).to_multiset() == with_configured(texts(found@), area_names(configured@)).to_multiset(),
        sorted_texts(texts(out@)),
{
    let mut areas = found;
    let ghost f = texts(areas@);
    let mut i: usize = 0;
    while i < configured.len()
        invariant
            i <= configured@.len(),
            texts(areas@) == with_configured(f, area_names(configured@).take(i as int)),
        decreases configured@.len() - i,
    {
        let ghost names = area_names(configured@).take(i + 1);
        assert(names.drop_last() =~= area_names(configured@).take(i as int));
        assert(names.last() == configured@[i as int].name@);
        if !contains_text(&areas, configured[i].name.as_str()) {
            let ghost before = areas@;
            areas.push(configured[i].name.clone());
            assert(texts(areas@) =~= texts(before).push(configured@[i as int].name@));
        }
        i = i + 1;
    }
    assert(area_names(configured@).take(i as int) =~= area_names(configured@));
    sort_texts(areas)
}

} // verus!
