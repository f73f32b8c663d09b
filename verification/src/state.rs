//! What is already built, judged from the output files themselves.
//!
//! A step counts as built when the files it produces are there and non-empty - not because
//! something wrote down that it ran. A record kept beside the outputs adds how long the step
//! took and which options it ran with, so an option edited since can be reported as a reason to
//! rebuild.
use vstd::prelude::*;
use vstd::string::StringSliceAdditionalSpecFns;
use crate::download::{extract_path, pbf_ext, underscored};
use crate::settings::Settings;
use crate::steps::StepId;
use crate::text::{chars_of, concat_str, join, path_join, push_all, string_of};

verus! {

/// One output, as found on disk. Some steps produce a directory rather than a file.
#[derive(Debug, Clone, PartialEq, Eq)]
pub struct OutputFile {
    pub name: String,
    pub bytes: u64,
    /// Seconds since the epoch.
    pub modified: u64,
    pub dir: bool,
}

/// What one expected output counts as, from what the file system says of it: a regular file
/// counts when it is not empty, a directory when it holds something (an empty one is the same
/// as absent), anything else not at all. `entries` says whether a directory has any entry.
pub fn output_found(name: String, is_dir: bool, is_file: bool, len: u64, entries: bool, modified: u64) -> (r: Option<OutputFile>)
    ensures
        match r {
            Some(f) => f.name == name && f.modified == modified && (if is_dir {
                entries && f.dir && f.bytes == 0
            } else {
                is_file && len > 0 && !f.dir && f.bytes == len
            }),
            None => if is_dir { !entries } else { !is_file || len == 0 },
        },
{
    if is_dir {
        if entries {
            Some(OutputFile { name, bytes: 0, modified, dir: true })
        } else {
            None
        }
    } else if is_file && len > 0 {
        Some(OutputFile { name, bytes: len, modified, dir: false })
    } else {
        None
    }
}

/// Whether a step needs to run, and why.
#[derive(Debug, Clone, PartialEq, Eq)]
pub enum StepStatus {
    /// Nothing on disk. Zero-byte files count as nothing.
    Missing { missing: Vec<String> },
    /// Every output present. Safe to skip.
    Built {
        outputs: Vec<OutputFile>,
        /// From the record, when there is one.
        elapsed: Option<String>,
        /// When the step last ran, if recorded; otherwise the newest output's timestamp.
        finished_at: u64,
        /// Whether a record backs this up, or the files are all that is known.
        recorded: bool,
    },
    /// Output is there, but the options have been edited since it was produced.
    OptionsChanged { changed: Vec<String>, outputs: Vec<OutputFile> },
}

impl StepStatus {
    /// Whether a re-run can be skipped.
    pub fn is_fresh(&self) -> (r: bool)
        ensures
            r == (self is Built),
    {
        match self {
            StepStatus::Built { .. } => true,
            _ => false,
        }
    }
}

pub const FILE_NAME: &'static str = ".studio-state.json";

/// Where an area's record is kept.
pub fn state_path(area_dir: &str) -> (p: String)
    ensures
        p@ == path_join(area_dir@, FILE_NAME@),
{
    join(area_dir, FILE_NAME)
}

/// The file name a step writes into the area directory, when it writes there.
pub open spec fn area_output_name(area: Seq<char>, step: StepId) -> Seq<char> {
    match step {
        StepId::Basemap => area + ".mbtiles"@,
        StepId::Routes => area + "_routes.mbtiles"@,
        StepId::TerrainRgb => area + "_terrain.mbtiles"@,
        StepId::Hillshade => area + "_hillshade.mbtiles"@,
        _ => area + ".vtiles"@,
    }
}

/// Where each step writes. The OSM extract lands in planetiler's source downloads, the elevation
/// tiles and the raw Valhalla graph in their own trees; everything else in the area directory.
pub open spec fn output_paths(s: Settings, area: Seq<char>, step: StepId) -> Seq<Seq<char>> {
    match step {
        StepId::DownloadOsm => seq![path_join(s.data_dir@, underscored(area) + pbf_ext())],
        StepId::ElevationTiles => seq![s.elevation_tiles_dir@],
        StepId::ValhallaTiles => seq![path_join(s.repo_root@, "valhalla_tiles"@)],
        _ => seq![path_join(path_join(s.output_root@, area), area_output_name(area, step))],
    }
}

/// Where each step writes, so one existence check covers every step.
pub fn outputs_for(settings: &Settings, area: &str, step: StepId) -> (paths: Vec<String>)
    ensures
        crate::planetiler::texts(paths@) == output_paths(*settings, area@, step),
{
    let path = match step {
        StepId::DownloadOsm => extract_path(settings.data_dir.as_str(), area),
        StepId::ElevationTiles => settings.elevation_tiles_dir.clone(),
        StepId::ValhallaTiles => join(settings.repo_root.as_str(), "valhalla_tiles"),
        _ => {
            let suffix = match step {
                StepId::Basemap => ".mbtiles",
                StepId::Routes => "_routes.mbtiles",
                StepId::TerrainRgb => "_terrain.mbtiles",
                StepId::Hillshade => "_hillshade.mbtiles",
                _ => ".vtiles",
            };
            let name = concat_str(area, suffix);
            let dir = settings.area_dir(area);
            join(dir.as_str(), name.as_str())
        },
    };
    let mut paths: Vec<String> = Vec::new();
    paths.push(path);
    assert(crate::planetiler::texts(paths@) =~= output_paths(*settings, area@, step));
    paths
}

/// The outputs to delete: those whose probe found a regular file. Directories (the elevation
/// tiles, the raw Valhalla graph) are shared between areas and are never deleted here.
pub open spec fn deletable(paths: Seq<Seq<char>>, is_file: Seq<bool>) -> Seq<Seq<char>>
    decreases paths.len(),
{
    if paths.len() == 0 || paths.len() != is_file.len() {
        Seq::empty()
    } else {
        let rest = deletable(paths.drop_last(), is_file.drop_last());
        if is_file.last() {
            rest.push(paths.last())
        } else {
            rest
        }
    }
}

/// Which of a step's outputs to delete, given whether each is a regular file.
pub fn files_to_remove(paths: &[String], is_file: &[bool]) -> (out: Vec<String>)
    requires
        paths@.len() == is_file@.len(),
    ensures
        crate::planetiler::texts(out@) == deletable(crate::planetiler::texts(paths@), is_file@),
{
    let mut out: Vec<String> = Vec::new();
    let mut i: usize = 0;
    while i < paths.len()
        invariant
            i <= paths@.len(),
            paths@.len() == is_file@.len(),
            crate::planetiler::texts(out@) == deletable(crate::planetiler::texts(paths@).take(i as int), is_file@.take(i as int)),
        decreases paths@.len() - i,
    {
        let ghost before = out@;
        let ghost t = crate::planetiler::texts(paths@).take(i + 1);
        assert(t.drop_last() =~= crate::planetiler::texts(paths@).take(i as int));
        assert(is_file@.take(i + 1).drop_last() =~= is_file@.take(i as int));
        if is_file[i] {
            out.push(paths[i].clone());
            assert(crate::planetiler::texts(out@) =~= crate::planetiler::texts(before).push(paths@[i as int]@));
        }
        i = i + 1;
    }
    assert(crate::planetiler::texts(paths@).take(i as int) =~= crate::planetiler::texts(paths@));
    assert(is_file@.take(i as int) =~= is_file@);
    out
}

/// Deleting a step's output never touches a directory: everything chosen for deletion was
/// probed as a regular file.
pub proof fn only_files_are_deleted(paths: Seq<Seq<char>>, is_file: Seq<bool>, p: Seq<char>)
    requires
        paths.len() == is_file.len(),
        deletable(paths, is_file).contains(p),
    ensures
        exists|i: int| 0 <= i < paths.len() && paths[i] == p && is_file[i],
    decreases paths.len(),
{
    let rest = deletable(paths.drop_last(), is_file.drop_last());
    if rest.contains(p) {
        only_files_are_deleted(paths.drop_last(), is_file.drop_last(), p);
        let i = choose|i: int| 0 <= i < paths.drop_last().len() && paths.drop_last()[i] == p && is_file.drop_last()[i];
        assert(paths[i] == p && is_file[i]);
    } else {
        assert(is_file.last() && p == paths.last());
        assert(paths[paths.len() - 1] == p);
    }
}

/// FNV-1a, 64 bits, over a byte sequence.
pub open spec fn fnv1a(bytes: Seq<u8>) -> u64
    decreases bytes.len(),
{
    if bytes.len() == 0 {
        0xcbf2_9ce4_8422_2325
    } else {
        (((fnv1a(bytes.drop_last()) ^ (bytes.last() as u64)) as int * 0x0000_0100_0000_01b3)
            % 0x1_0000_0000_0000_0000) as u64
    }
}

pub open spec fn hex_char(d: nat) -> char {
    if d < 10 {
        crate::text::digit_char(d)
    } else if d == 10 {
        'a'
    } else if d == 11 {
        'b'
    } else if d == 12 {
        'c'
    } else if d == 13 {
        'd'
    } else if d == 14 {
        'e'
    } else {
        'f'
    }
}

/// The last `n` hexadecimal digits of `v`, lowercase, most significant first.
pub open spec fn hex_digits(v: nat, n: nat) -> Seq<char>
    decreases n,
{
    if n == 0 {
        Seq::empty()
    } else {
        hex_digits(v / 16, (n - 1) as nat).push(hex_char(v % 16))
    }
}

fn hex_char_exec(d: u64) -> (c: char)
    requires
        d < 16,
    ensures
        c == hex_char(d as nat),
{
    if d < 10 {
        crate::text::digit_char_exec(d)
    } else if d == 10 {
        'a'
    } else if d == 11 {
        'b'
    } else if d == 12 {
        'c'
    } else if d == 13 {
        'd'
    } else if d == 14 {
        'e'
    } else {
        'f'
    }
}

fn push_hex(out: &mut Vec<char>, v: u64, n: u64)
    ensures
        final(out)@ == old(out)@ + hex_digits(v as nat, n as nat),
    decreases n,
{
    if n > 0 {
        push_hex(out, v / 16, n - 1);
        out.push(hex_char_exec(v % 16));
        assert(old(out)@ + hex_digits(v as nat, n as nat) =~= old(out)@ + hex_digits(
            (v / 16) as nat,
            (n - 1) as nat,
        ) + seq![hex_char((v % 16) as nat)]);
    } else {
        assert(old(out)@ + hex_digits(v as nat, n as nat) =~= old(out)@);
    }
}

/// Fingerprint of a set of option values, given their canonical JSON rendering (keys in order):
/// FNV-1a over its UTF-8 bytes, as sixteen lowercase hex digits. The same options always give
/// the same text, so they always hash the same way.
pub fn hash_options(canonical: &str) -> (h: String)
    ensures
        h@ == hex_digits(fnv1a(canonical.spec_bytes()) as nat, 16),
{
    let bytes = canonical.as_bytes();
    let mut hash: u64 = 0xcbf2_9ce4_8422_2325;
    let mut i: usize = 0;
    while i < bytes.len()
        invariant
            i <= bytes@.len(),
            bytes@ == canonical.spec_bytes(),
            hash == fnv1a(bytes@.take(i as int)),
        decreases bytes@.len() - i,
    {
        assert(bytes@.take(i + 1).drop_last() =~= bytes@.take(i as int));
        hash = hash ^ (bytes[i] as u64);
        hash = ((hash as u128 * 0x0000_0100_0000_01b3u128) % 0x1_0000_0000_0000_0000u128) as u64;
        i = i + 1;
    }
    assert(bytes@.take(bytes@.len() as int) =~= bytes@);
    let mut out: Vec<char> = Vec::new();
    push_hex(&mut out, hash, 16);
    assert(out@ =~= hex_digits(hash as nat, 16));
    string_of(out.as_slice())
}

/// One completed run of one step, as recorded beside the outputs. Option values are held as
/// their JSON rendering, so two values are equal exactly when their renderings are.
#[derive(Debug, Clone, PartialEq)]
pub struct StepRecord {
    pub finished_at: u64,
    pub elapsed: Option<String>,
    /// Fingerprint of the options the step ran with.
    pub options_hash: String,
    /// The options themselves, in key order.
    pub options: Vec<(String, String)>,
}

/// The outputs that were found, in order.
pub open spec fn found_outputs(probes: Seq<Option<OutputFile>>) -> Seq<OutputFile>
    decreases probes.len(),
{
    if probes.len() == 0 {
        Seq::empty()
    } else {
        let rest = found_outputs(probes.drop_last());
        match probes.last() {
            Some(f) => rest.push(f),
            None => rest,
        }
    }
}

/// The names of the outputs that were not found, in order.
pub open spec fn missing_names(names: Seq<Seq<char>>, probes: Seq<Option<OutputFile>>) -> Seq<Seq<char>>
    decreases probes.len(),
{
    if probes.len() == 0 || names.len() != probes.len() {
        Seq::empty()
    } else {
        let rest = missing_names(names.drop_last(), probes.drop_last());
        match probes.last() {
            Some(_) => rest,
            None => rest.push(names.last()),
        }
    }
}

/// The newest modification time among the outputs, 0 when there are none.
pub open spec fn newest(found: Seq<OutputFile>) -> u64
    decreases found.len(),
{
    if found.len() == 0 {
        0
    } else {
        let rest = newest(found.drop_last());
        if found.last().modified > rest {
            found.last().modified
        } else {
            rest
        }
    }
}

/// Keys whose value differs between the record and the current options: the record's keys,
/// then the current ones, each listed once, in that order.
pub open spec fn changed_keys(keys: Seq<Seq<char>>, recorded: Seq<(Seq<char>, Seq<char>)>, current: Seq<(Seq<char>, Seq<char>)>) -> Seq<Seq<char>>
    decreases keys.len(),
{
    if keys.len() == 0 {
        Seq::empty()
    } else {
        let rest = changed_keys(keys.drop_last(), recorded, current);
        let k = keys.last();
        if crate::catalog::lookup(recorded, k) != crate::catalog::lookup(current, k) && !rest.contains(k) {
            rest.push(k)
        } else {
            rest
        }
    }
}

pub open spec fn keys_of(rows: Seq<(Seq<char>, Seq<char>)>) -> Seq<Seq<char>> {
    rows.map_values(|p: (Seq<char>, Seq<char>)| p.0)
}

fn copy_output(f: &OutputFile) -> (c: OutputFile)
    ensures
        c == *f,
{
    OutputFile { name: f.name.clone(), bytes: f.bytes, modified: f.modified, dir: f.dir }
}

fn contains_key_text(v: &Vec<String>, k: &str) -> (r: bool)
    ensures
        r == crate::planetiler::texts(v@).contains(k@),
{
    let mut i: usize = 0;
    while i < v.len()
        invariant
            i <= v@.len(),
            forall|j: int| 0 <= j < i ==> v@[j]@ != k@,
        decreases v@.len() - i,
    {
        if crate::text::same_text(v[i].as_str(), k) {
            assert(crate::planetiler::texts(v@)[i as int] == k@);
            return true;
        }
        i = i + 1;
    }
    proof {
        if crate::planetiler::texts(v@).contains(k@) {
            let q = choose|q: int| 0 <= q < v@.len() && crate::planetiler::texts(v@)[q] == k@;
            assert(v@[q]@ == k@);
        }
    }
    false
}

/// What judging a step gives: `Missing` with the names of the outputs not found, when any is
/// not; otherwise `Built` from the files alone when there is no record, `OptionsChanged` with
/// the keys that differ when the recorded fingerprint is not the current one, and `Built` from
/// the record when it is.
pub open spec fn judged(names: Seq<Seq<char>>, probes: Seq<Option<OutputFile>>, record: Option<StepRecord>, options: Seq<(String, String)>, hash: Seq<char>, s: StepStatus) -> bool {
    &&& missing_names(names, probes).len() > 0 ==> (s matches StepStatus::Missing { missing }
        && crate::planetiler::texts(missing@) == missing_names(names, probes))
    &&& missing_names(names, probes).len() == 0 ==> match record {
        None => (s matches StepStatus::Built { outputs, elapsed, finished_at, recorded }
            && outputs@ == found_outputs(probes) && elapsed is None && finished_at == newest(found_outputs(probes))
            && !recorded),
        Some(r) => if r.options_hash@ != hash {
            (s matches StepStatus::OptionsChanged { changed, outputs } && outputs@ == found_outputs(probes)
                && crate::planetiler::texts(changed@) == changed_keys(
                    keys_of(crate::catalog::rows(r.options@)) + keys_of(crate::catalog::rows(options)),
                    crate::catalog::rows(r.options@),
                    crate::catalog::rows(options),
                ))
        } else {
            (s matches StepStatus::Built { outputs, elapsed, finished_at, recorded }
                && outputs@ == found_outputs(probes) && elapsed == r.elapsed
                && finished_at == r.finished_at && recorded)
        },
    }
}

/// Judge one step from what was found of its outputs, then from its record if there is one.
///
/// `names[i]` is the file name of the `i`-th expected output and `probes[i]` what was found
/// there: `None` for nothing usable (absent, empty, or an empty directory). `options` are the
/// step's current options and `options_hash` their fingerprint.
pub fn status(names: &[String], probes: &[Option<OutputFile>], record: Option<&StepRecord>, options: &[(String, String)], options_hash: &str) -> (s: StepStatus)
    requires
        names@.len() == probes@.len(),
    ensures
        judged(
            crate::planetiler::texts(names@),
            probes@,
            match record {
                Some(r) => Some(*r),
                None => None,
            },
            options@,
            options_hash@,
            s,
        ),
{
    let mut found: Vec<OutputFile> = Vec::new();
    let mut missing: Vec<String> = Vec::new();
    let mut latest: u64 = 0;
    let mut i: usize = 0;
    while i < probes.len()
        invariant
            i <= probes@.len(),
            names@.len() == probes@.len(),
            found@ == found_outputs(probes@.take(i as int)),
            crate::planetiler::texts(missing@) == missing_names(crate::planetiler::texts(names@.take(i as int)), probes@.take(i as int)),
            latest == newest(found_outputs(probes@.take(i as int))),
        decreases probes@.len() - i,
    {
        assert(probes@.take(i + 1).drop_last() =~= probes@.take(i as int));
        assert(crate::planetiler::texts(names@.take(i + 1)).drop_last() =~= crate::planetiler::texts(names@.take(i as int)));
        match &probes[i] {
            Some(f) => {
                let c = copy_output(f);
                if c.modified > latest {
                    latest = c.modified;
                }
                let ghost prev = found@;
                found.push(c);
                assert(found@.drop_last() =~= prev);
            },
            None => {
                let ghost before = missing@;
                missing.push(names[i].clone());
                assert(crate::planetiler::texts(missing@) =~= crate::planetiler::texts(before).push(names@[i as int]@));
            },
        }
        i = i + 1;
    }
    assert(probes@.take(probes@.len() as int) =~= probes@);
    assert(names@.take(names@.len() as int) =~= names@);
    if missing.len() > 0 {
        return StepStatus::Missing { missing };
    }
    let r = match record {
        None => {
            return StepStatus::Built { outputs: found, elapsed: None, finished_at: latest, recorded: false };
        },
        Some(r) => r,
    };
    if !crate::text::same_text(r.options_hash.as_str(), options_hash) {
        let ghost all_keys = keys_of(crate::catalog::rows(r.options@)) + keys_of(crate::catalog::rows(options@));
        let ghost nr = r.options@.len();
        let mut changed: Vec<String> = Vec::new();
        let mut k: usize = 0;
        while k < r.options.len()
            invariant
                k <= r.options@.len(),
                nr == r.options@.len(),
                all_keys == keys_of(crate::catalog::rows(r.options@)) + keys_of(crate::catalog::rows(options@)),
                crate::planetiler::texts(changed@) == changed_keys(all_keys.take(k as int), crate::catalog::rows(r.options@), crate::catalog::rows(options@)),
            decreases r.options@.len() - k,
        {
            let key = r.options[k].0.as_str();
            assert(all_keys.take(k + 1).drop_last() =~= all_keys.take(k as int));
            assert(all_keys[k as int] == key@);
            let differs = !same_value(crate::catalog::meta_get(r.options.as_slice(), key), crate::catalog::meta_get(options, key));
            if differs && !contains_key_text(&changed, key) {
                let ghost before = changed@;
                changed.push(r.options[k].0.clone());
                assert(crate::planetiler::texts(changed@) =~= crate::planetiler::texts(before).push(key@));
            }
            k = k + 1;
        }
        let mut q: usize = 0;
        while q < options.len()
            invariant
                q <= options@.len(),
                nr == r.options@.len(),
                all_keys == keys_of(crate::catalog::rows(r.options@)) + keys_of(crate::catalog::rows(options@)),
                all_keys.len() == nr + options@.len(),
                crate::planetiler::texts(changed@) == changed_keys(all_keys.take(nr + q), crate::catalog::rows(r.options@), crate::catalog::rows(options@)),
            decreases options@.len() - q,
        {
            let key = options[q].0.as_str();
            assert(all_keys.take(nr + q + 1).drop_last() =~= all_keys.take(nr + q));
            assert(all_keys[nr + q] == key@);
            let differs = !same_value(crate::catalog::meta_get(r.options.as_slice(), key), crate::catalog::meta_get(options, key));
            if differs && !contains_key_text(&changed, key) {
                let ghost before = changed@;
                changed.push(options[q].0.clone());
                assert(crate::planetiler::texts(changed@) =~= crate::planetiler::texts(before).push(key@));
            }
            q = q + 1;
        }
        assert(all_keys.take(all_keys.len() as int) =~= all_keys);
        return StepStatus::OptionsChanged { changed, outputs: found };
    }
    StepStatus::Built { outputs: found, elapsed: r.elapsed.clone(), finished_at: r.finished_at, recorded: true }
}

proof fn lemma_nothing_missing(names: Seq<Seq<char>>, probes: Seq<Option<OutputFile>>)
    requires
        names.len() == probes.len(),
        forall|i: int| 0 <= i < probes.len() ==> #[trigger] probes[i] is Some,
    ensures
        missing_names(names, probes).len() == 0,
    decreases probes.len(),
{
    if probes.len() > 0 {
        assert(probes.last() == probes[probes.len() - 1]);
        lemma_nothing_missing(names.drop_last(), probes.drop_last());
    }
}

proof fn lemma_something_missing(names: Seq<Seq<char>>, probes: Seq<Option<OutputFile>>, i: int)
    requires
        names.len() == probes.len(),
        0 <= i < probes.len(),
        probes[i] is None,
    ensures
        missing_names(names, probes).len() > 0,
    decreases probes.len(),
{
    if i < probes.len() - 1 {
        assert(probes.drop_last()[i] == probes[i]);
        lemma_something_missing(names.drop_last(), probes.drop_last(), i);
        match probes.last() {
            Some(_) => {},
            None => {},
        }
    }
}

/// A step marked done reads back as built while its outputs are all there: from the record,
/// with the run's time and duration, when it is judged with the options it ran with, and as
/// changed options when with any others.
pub proof fn a_marked_step_is_built(
    before: BuildState,
    step: StepId,
    record: StepRecord,
    names: Seq<Seq<char>>,
    probes: Seq<Option<OutputFile>>,
    options: Seq<(String, String)>,
    hash: Seq<char>,
    s: StepStatus,
)
    requires
        names.len() == probes.len(),
        forall|i: int| 0 <= i < probes.len() ==> #[trigger] probes[i] is Some,
        judged(names, probes, Some(before@.insert(step, record)[step]), options, hash, s),
    ensures
        record.options_hash@ == hash ==> (s matches StepStatus::Built { elapsed, finished_at, recorded, .. }
            && elapsed == record.elapsed && finished_at == record.finished_at && recorded),
        record.options_hash@ != hash ==> s is OptionsChanged,
{
    lemma_nothing_missing(names, probes);
}

/// Removing a step's outputs is what makes it run again: when any of them was a regular file
/// (so something was deleted), and each deleted file is afterwards found absent, the step reads
/// as missing - not fresh - whatever its record says, and whatever options it is judged with.
pub proof fn removing_outputs_makes_the_step_run_again(
    paths: Seq<Seq<char>>,
    is_file: Seq<bool>,
    names: Seq<Seq<char>>,
    probes: Seq<Option<OutputFile>>,
    record: Option<StepRecord>,
    options: Seq<(String, String)>,
    hash: Seq<char>,
    s: StepStatus,
)
    requires
        paths.len() == is_file.len(),
        names.len() == paths.len(),
        probes.len() == paths.len(),
        deletable(paths, is_file).len() > 0,
        forall|i: int| 0 <= i < paths.len() && #[trigger] is_file[i] ==> probes[i] is None,
        judged(names, probes, record, options, hash, s),
    ensures
        s is Missing,
        !(s is Built),
{
    only_files_are_deleted(paths, is_file, deletable(paths, is_file)[0]);
    let gone = choose|i: int| 0 <= i < paths.len() && paths[i] == deletable(paths, is_file)[0] && is_file[i];
    lemma_something_missing(names, probes, gone);
}

fn same_value(a: Option<String>, b: Option<String>) -> (r: bool)
    ensures
        r == (crate::catalog::text_of(a) == crate::catalog::text_of(b)),
{
    match (&a, &b) {
        (Some(x), Some(y)) => crate::text::same_text(x.as_str(), y.as_str()),
        (None, None) => true,
        _ => false,
    }
}

} // verus!

verus! {

/// The layout of the record this library writes. A record of another layout is not read.
pub const VERSION: u32 = 1;

/// What the record says of `step`: the last entry for it, if any.
pub open spec fn recorded(steps: Seq<(StepId, StepRecord)>, step: StepId) -> Option<StepRecord>
    decreases steps.len(),
{
    if steps.len() == 0 {
        None
    } else if steps.last().0 == step {
        Some(steps.last().1)
    } else {
        recorded(steps.drop_last(), step)
    }
}

/// No step has two entries.
pub open spec fn steps_unique(steps: Seq<(StepId, StepRecord)>) -> bool {
    forall|i: int, j: int| 0 <= i < j < steps.len() ==> #[trigger] steps[i].0 != #[trigger] steps[j].0
}

proof fn lemma_unique_remove(s: Seq<(StepId, StepRecord)>, i: int)
    requires
        0 <= i < s.len(),
        steps_unique(s),
    ensures
        steps_unique(s.remove(i)),
{
    let t = s.remove(i);
    assert forall|p: int, q: int| 0 <= p < q < t.len() implies #[trigger] t[p].0 != #[trigger] t[q].0 by {
        let sp = if p < i { p } else { p + 1 };
        let sq = if q < i { q } else { q + 1 };
        assert(t[p] == s[sp] && t[q] == s[sq]);
    }
}

/// Everything recorded for one area, one entry per step. A record read back with a step twice
/// means its last entry, as [`recorded`] reads it; the operations here keep one entry per step
/// ([`steps_unique`]).
#[derive(Debug, Clone)]
pub struct BuildState {
    pub version: u32,
    pub steps: Vec<(StepId, StepRecord)>,
}

impl View for BuildState {
    type V = Map<StepId, StepRecord>;

    open spec fn view(&self) -> Map<StepId, StepRecord> {
        Map::new(|k: StepId| recorded(self.steps@, k) is Some, |k: StepId| recorded(self.steps@, k).unwrap())
    }
}

proof fn lemma_remove_other(s: Seq<(StepId, StepRecord)>, i: int, k: StepId)
    requires
        0 <= i < s.len(),
        s[i].0 != k,
    ensures
        recorded(s.remove(i), k) == recorded(s, k),
    decreases s.len(),
{
    if i == s.len() - 1 {
        assert(s.remove(i) =~= s.drop_last());
    } else {
        assert(s.remove(i).last() == s.last());
        assert(s.remove(i).drop_last() =~= s.drop_last().remove(i));
        lemma_remove_other(s.drop_last(), i, k);
    }
}

proof fn lemma_recorded_holds(s: Seq<(StepId, StepRecord)>, p: int)
    requires
        0 <= p < s.len(),
    ensures
        recorded(s, s[p].0) is Some,
    decreases s.len(),
{
    if p < s.len() - 1 && s.last().0 != s[p].0 {
        assert(s.drop_last()[p] == s[p]);
        lemma_recorded_holds(s.drop_last(), p);
    }
}

proof fn lemma_absent(s: Seq<(StepId, StepRecord)>, k: StepId)
    requires
        forall|j: int| 0 <= j < s.len() ==> s[j].0 != k,
    ensures
        recorded(s, k) is None,
    decreases s.len(),
{
    if s.len() > 0 {
        lemma_absent(s.drop_last(), k);
    }
}

impl BuildState {
    /// A record with nothing in it.
    pub fn empty() -> (s: Self)
        ensures
            s@ == Map::<StepId, StepRecord>::empty(),
            s.version == VERSION,
            steps_unique(s.steps@),
    {
        let s = BuildState { version: VERSION, steps: Vec::new() };
        assert(s@ =~= Map::<StepId, StepRecord>::empty());
        s
    }

    /// A record as read back: kept when it has this library's layout, otherwise an empty one.
    pub fn accept(self) -> (s: Self)
        ensures
            self.version == VERSION ==> s == self,
            self.version != VERSION ==> s@ == Map::<StepId, StepRecord>::empty() && s.version == VERSION
                && steps_unique(s.steps@),
    {
        if self.version == VERSION {
            self
        } else {
            BuildState::empty()
        }
    }

    /// The record for one step, if there is one.
    pub fn get(&self, step: StepId) -> (r: Option<&StepRecord>)
        ensures
            match r {
                Some(x) => self@.contains_key(step) && self@[step] == *x,
                None => !self@.contains_key(step),
            },
    {
        let mut i: usize = self.steps.len();
        assert(self.steps@.take(i as int) =~= self.steps@);
        while i > 0
            invariant
                i <= self.steps@.len(),
                recorded(self.steps@, step) == recorded(self.steps@.take(i as int), step),
            decreases i,
        {
            let ghost t = self.steps@.take(i as int);
            assert(t.drop_last() =~= self.steps@.take(i - 1));
            if self.steps[i - 1].0 == step {
                return Some(&self.steps[i - 1].1);
            }
            i = i - 1;
        }
        None
    }

    /// Drop the record for one step, so its options no longer count as known. Nothing the step
    /// produced is touched: the output is still there, and the step still reads as built.
    pub fn clear(&mut self, step: StepId)
        ensures
            final(self)@ == old(self)@.remove(step),
            final(self).version == old(self).version,
            steps_unique(old(self).steps@) ==> steps_unique(final(self).steps@),
    {
        let mut i: usize = 0;
        while i < self.steps.len()
            invariant
                i <= self.steps@.len(),
                self.version == old(self).version,
                steps_unique(old(self).steps@) ==> steps_unique(self.steps@),
                forall|j: int| 0 <= j < i ==> self.steps@[j].0 != step,
                forall|k: StepId| k != step ==> recorded(self.steps@, k) == recorded(old(self).steps@, k),
            decreases self.steps@.len() - i,
        {
            if self.steps[i].0 == step {
                let ghost before = self.steps@;
                self.steps.remove(i);
                proof {
                    if steps_unique(old(self).steps@) {
                        lemma_unique_remove(before, i as int);
                    }
                    assert forall|k: StepId| k != step implies recorded(self.steps@, k) == recorded(old(self).steps@, k) by {
                        lemma_remove_other(before, i as int, k);
                    }
                }
            } else {
                i = i + 1;
            }
        }
        proof {
            lemma_absent(self.steps@, step);
        }
        assert(self@ =~= old(self)@.remove(step));
    }

    /// Forget every step.
    pub fn clear_all(&mut self)
        ensures
            final(self)@ == Map::<StepId, StepRecord>::empty(),
            final(self).version == old(self).version,
            steps_unique(final(self).steps@),
    {
        self.steps = Vec::new();
        assert(self@ =~= Map::<StepId, StepRecord>::empty());
    }

    /// Note that a step finished, with what it ran with. Its earlier record, if any, is replaced.
    pub fn mark_done(&mut self, step: StepId, record: StepRecord)
        ensures
            final(self)@ == old(self)@.insert(step, record),
            final(self).version == old(self).version,
            steps_unique(old(self).steps@) ==> steps_unique(final(self).steps@),
    {
        self.clear(step);
        let ghost before = self.steps@;
        let ghost mid = self@;
        self.steps.push((step, record));
        assert(self.steps@.drop_last() =~= before);
        assert forall|k: StepId| #[trigger] recorded(self.steps@, k) == (if k == step { Some(record) } else { recorded(before, k) }) by {}
        proof {
            if steps_unique(old(self).steps@) {
                assert(!mid.contains_key(step));
                assert forall|p: int, q: int| 0 <= p < q < self.steps@.len() implies #[trigger] self.steps@[p].0 != #[trigger] self.steps@[q].0 by {
                    if q == self.steps@.len() - 1 {
                        assert(self.steps@[p] == before[p]);
                        if before[p].0 == step {
                            lemma_recorded_holds(before, p);
                        }
                    } else {
                        assert(self.steps@[p] == before[p] && self.steps@[q] == before[q]);
                    }
                }
            }
        }
        assert forall|k: StepId| k != step implies (#[trigger] self@.contains_key(k)) == mid.contains_key(k)
            && (mid.contains_key(k) ==> self@[k] == mid[k]) by {
            assert(mid.contains_key(k) == (recorded(before, k) is Some));
        }
        assert(self@ =~= old(self)@.insert(step, record));
    }
}

/// What is recorded for a step reads back as written, and marking or clearing one step leaves
/// every other step's record as it was.
pub proof fn records_read_back(before: BuildState, step: StepId, record: StepRecord, other: StepId)
    requires
        other != step,
    ensures
        before@.insert(step, record).contains_key(step),
        before@.insert(step, record)[step] == record,
        !before@.remove(step).contains_key(step),
        before@.insert(step, record).contains_key(other) == before@.contains_key(other),
        before@.contains_key(other) ==> before@.insert(step, record)[other] == before@[other],
        before@.remove(step).contains_key(other) == before@.contains_key(other),
        before@.contains_key(other) ==> before@.remove(step)[other] == before@[other],
{
}

} // verus!
