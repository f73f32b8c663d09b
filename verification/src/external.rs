//! The Valhalla command-line tools run as steps: what runs, and how their output reads.
//!
//! `valhalla_build_elevation` and `valhalla_build_tiles` stay subprocesses. Their logs are
//! turned into events, and the stage banners among them become phases.
use vstd::prelude::*;
use crate::steps::StepId;
use crate::planetiler::texts;
use crate::download::extract_path;
use crate::settings::Settings;
use crate::text::{join, path_join, chars_of, has_prefix, matches_at, run, run_end, slice_of, string_of, trim, trim_vec, Class};

verus! {

/// One Valhalla binary, its arguments, and where to run it.
pub struct ToolJob {
    pub step: StepId,
    pub area: String,
    /// The binary, already resolved to a path.
    pub program: String,
    pub args: Vec<String>,
    pub working_dir: String,
}

impl ToolJob {
    /// What would run, for a dry run or an error message.
    pub fn command_line(&self) -> (line: Vec<String>)
        ensures
            texts(line@) == seq![self.program@] + texts(self.args@),
    {
        let mut line: Vec<String> = Vec::new();
        line.push(self.program.clone());
        let ghost head = line@;
        let mut i: usize = 0;
        while i < self.args.len()
            invariant
                i <= self.args@.len(),
                line@ == head + self.args@.take(i as int),
            decreases self.args@.len() - i,
        {
            line.push(self.args[i].clone());
            assert(head + self.args@.take(i + 1) =~= (head + self.args@.take(i as int)).push(
                self.args@[i as int],
            ));
            i = i + 1;
        }
        assert(self.args@.take(self.args@.len() as int) =~= self.args@);
        assert(texts(line@) =~= seq![self.program@] + texts(self.args@));
        line
    }
}

/// Where to look for a Valhalla binary called `name`, in order: each configured binary
/// directory, then each `PATH` directory. The first that holds a file is the tool.
pub open spec fn tool_paths(bin_dirs: Seq<Seq<char>>, path_dirs: Seq<Seq<char>>, name: Seq<char>) -> Seq<Seq<char>> {
    (bin_dirs + path_dirs).map_values(|d: Seq<char>| path_join(d, name))
}

/// The places `tool_paths` names, to be probed in order.
pub fn tool_candidates(bin_dirs: &[String], path_dirs: &[String], name: &str) -> (c: Vec<String>)
    ensures
        texts(c@) == tool_paths(texts(bin_dirs@), texts(path_dirs@), name@),
{
    let ghost dirs = texts(bin_dirs@) + texts(path_dirs@);
    let mut c: Vec<String> = Vec::new();
    let mut i: usize = 0;
    while i < bin_dirs.len()
        invariant
            i <= bin_dirs@.len(),
            dirs == texts(bin_dirs@) + texts(path_dirs@),
            texts(c@) == dirs.take(i as int).map_values(|d: Seq<char>| path_join(d, name@)),
        decreases bin_dirs@.len() - i,
    {
        let ghost before = c@;
        c.push(join(bin_dirs[i].as_str(), name));
        i = i + 1;
        assert(dirs[i - 1] == bin_dirs@[i - 1]@);
        assert(texts(c@) =~= texts(before).push(path_join(bin_dirs@[i - 1]@, name@)));
        assert(dirs.take(i as int).map_values(|d: Seq<char>| path_join(d, name@))
            =~= dirs.take(i - 1).map_values(|d: Seq<char>| path_join(d, name@)).push(path_join(dirs[i - 1], name@)));
    }
    let mut j: usize = 0;
    while j < path_dirs.len()
        invariant
            j <= path_dirs@.len(),
            dirs == texts(bin_dirs@) + texts(path_dirs@),
            texts(c@) == dirs.take(bin_dirs@.len() + j).map_values(|d: Seq<char>| path_join(d, name@)),
        decreases path_dirs@.len() - j,
    {
        let ghost before = c@;
        let ghost k = bin_dirs@.len() + j;
        c.push(join(path_dirs[j].as_str(), name));
        j = j + 1;
        assert(dirs[k] == path_dirs@[j - 1]@);
        assert(texts(c@) =~= texts(before).push(path_join(path_dirs@[j - 1]@, name@)));
        assert(dirs.take(k + 1).map_values(|d: Seq<char>| path_join(d, name@))
            =~= dirs.take(k).map_values(|d: Seq<char>| path_join(d, name@)).push(path_join(dirs[k], name@)));
    }
    assert(dirs.take(bin_dirs@.len() + j) =~= dirs);
    c
}

/// `valhalla_build_elevation`, writing decompressed `.hgt` tiles (`-d`) for the bounds in the
/// configuration into the elevation tile directory.
pub fn elevation_job(settings: &Settings, area: &str, config: &str, program: String) -> (job: ToolJob)
    ensures
        job.step == StepId::ElevationTiles,
        job.area@ == area@,
        job.program@ == program@,
        texts(job.args@) == seq!["-v"@, "-d"@, "-c"@, config@, "-o"@, settings.elevation_tiles_dir@],
        job.working_dir@ == settings.repo_root@,
{
    let mut args: Vec<String> = Vec::new();
    args.push(String::from_str("-v"));
    args.push(String::from_str("-d"));
    args.push(String::from_str("-c"));
    args.push(String::from_str(config));
    args.push(String::from_str("-o"));
    args.push(settings.elevation_tiles_dir.clone());
    proof {
        reveal_strlit("-v");
        reveal_strlit("-d");
        reveal_strlit("-c");
        reveal_strlit("-o");
    }
    assert(texts(args@) =~= seq!["-v"@, "-d"@, "-c"@, config@, "-o"@, settings.elevation_tiles_dir@]);
    ToolJob {
        step: StepId::ElevationTiles,
        area: String::from_str(area),
        program,
        args,
        working_dir: settings.repo_root.clone(),
    }
}

/// `valhalla_build_tiles` over the area's OSM extract. The extract has to be there first;
/// `extract_is_file` says whether it is, and when it is not the error names it.
pub fn tiles_job(settings: &Settings, area: &str, config: &str, program: String, extract_is_file: bool) -> (r: Result<ToolJob, String>)
    ensures
        !extract_is_file ==> (r matches Err(m) && m@ == crate::download::extract_file(settings.data_dir@, area@) + " is missing; run `alpimaps download` first"@),
        extract_is_file ==> (r matches Ok(job) && job.step == StepId::ValhallaTiles && job.area@ == area@
            && job.program@ == program@ && texts(job.args@) == seq!["-c"@, config@, crate::download::extract_file(settings.data_dir@, area@)]
            && job.working_dir@ == settings.repo_root@),
{
    let pbf = extract_path(settings.data_dir.as_str(), area);
    if !extract_is_file {
        return Err(crate::text::concat_str(pbf.as_str(), " is missing; run `alpimaps download` first"));
    }
    let mut args: Vec<String> = Vec::new();
    args.push(String::from_str("-c"));
    args.push(String::from_str(config));
    args.push(pbf);
    proof {
        reveal_strlit("-c");
    }
    assert(texts(args@) =~= seq!["-c"@, config@, crate::download::extract_file(settings.data_dir@, area@)]);
    Ok(ToolJob {
        step: StepId::ValhallaTiles,
        area: String::from_str(area),
        program,
        args,
        working_dir: settings.repo_root.clone(),
    })
}

pub open spec fn info_marker() -> Seq<char> {
    seq!['[', 'I', 'N', 'F', 'O', ']', ' ']
}

/// The stage banners `valhalla_build_tiles` prints.
pub open spec fn banners() -> Seq<Seq<char>> {
    seq![
        "Parsing files"@,
        "Building"@,
        "Sorting"@,
        "Enhancing"@,
        "Filtering"@,
        "Validating"@,
        "Elevation"@,
        "Cleaning"@,
    ]
}

/// The first position at or after `i` where `pat` occurs in `s`.
pub open spec fn find_from(s: Seq<char>, pat: Seq<char>, i: int) -> Option<int>
    decreases s.len() - i,
{
    if i < 0 || i >= s.len() || i + pat.len() > s.len() {
        None
    } else if s.subrange(i, i + pat.len()) == pat {
        Some(i)
    } else {
        find_from(s, pat, i + 1)
    }
}

/// Whether `rest` starts with one of the banners.
pub open spec fn starts_with_banner(rest: Seq<char>) -> bool {
    exists|b: int| 0 <= b < banners().len() && #[trigger] has_prefix(rest, banners()[b])
}

/// The phase a log line announces: after the first `[INFO] `, a line starting with one of the
/// banners names a phase, which is the text up to the first `:`, trimmed.
pub open spec fn phase_name(line: Seq<char>) -> Option<Seq<char>> {
    match find_from(line, info_marker(), 0) {
        None => None,
        Some(k) => {
            let rest = line.subrange(k + 7, line.len() as int);
            if starts_with_banner(rest) {
                Some(trim(rest.subrange(0, run(rest, 0, Class::NotColon) as int)))
            } else {
                None
            }
        },
    }
}

fn find_marker(v: &Vec<char>) -> (r: Option<usize>)
    ensures
        r matches Some(k) ==> find_from(v@, info_marker(), 0) == Some(k as int) && k + 7 <= v@.len(),
        r is None ==> find_from(v@, info_marker(), 0) is None,
{
    let marker = ['[', 'I', 'N', 'F', 'O', ']', ' '];
    assert(marker@ =~= info_marker());
    let mut i: usize = 0;
    while i < v.len()
        invariant
            i <= v@.len(),
            marker@ == info_marker(),
            find_from(v@, info_marker(), 0) == find_from(v@, info_marker(), i as int),
        decreases v@.len() - i,
    {
        if matches_at(v, i, &marker) {
            return Some(i);
        }
        i = i + 1;
    }
    None
}

/// Recognise the stage banners Valhalla prints, so the UI can show where a long build is.
pub fn phase_of(line: &str) -> (r: Option<String>)
    ensures
        r matches Some(p) ==> phase_name(line@) == Some(p@),
        r is None ==> phase_name(line@) is None,
{
    let v = chars_of(line);
    let n = v.len();
    let k = match find_marker(&v) {
        Some(k) => k,
        None => return None,
    };
    let rest = slice_of(&v, k + 7, n);
    let names = [
        "Parsing files",
        "Building",
        "Sorting",
        "Enhancing",
        "Filtering",
        "Validating",
        "Elevation",
        "Cleaning",
    ];
    let mut found = false;
    let mut b: usize = 0;
    while b < 8
        invariant
            b <= 8,
            names@.len() == 8,
            forall|q: int| 0 <= q < 8 ==> (#[trigger] names@[q])@ == banners()[q],
            found ==> exists|q: int| 0 <= q < 8 && #[trigger] has_prefix(rest@, banners()[q]),
            !found ==> forall|q: int| 0 <= q < b ==> !#[trigger] has_prefix(rest@, banners()[q]),
        decreases 8 - b,
    {
        let banner = chars_of(names[b]);
        if crate::text::starts_with_chars(&rest, banner.as_slice()) {
            found = true;
        }
        b = b + 1;
    }
    if !found {
        return None;
    }
    let colon = run_end(&rest, 0, Class::NotColon);
    let head = slice_of(&rest, 0, colon);
    let name = trim_vec(&head);
    assert(rest@ == line@.subrange(k + 7, line@.len() as int));
    assert(starts_with_banner(rest@));
    assert(name@ == trim(rest@.subrange(0, run(rest@, 0, Class::NotColon) as int)));
    assert(find_from(line@, info_marker(), 0) == Some(k as int));
    assert(phase_name(line@) == Some(name@));
    Some(string_of(name.as_slice()))
}

} // verus!
