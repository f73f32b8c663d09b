//! The decisions of a build run, apart from the work.
//!
//! A run walks the plan in order. For each step it first asks whether the step's output is
//! already there (and not forced), in which case the step is skipped and counts as done;
//! otherwise the step runs, and a failure or a cancellation ends the run. The caller does the
//! work - downloads, subprocesses, rendering - and reports back; what to do next is decided here.
use vstd::prelude::*;
use crate::options::{args_of, basemap_options, routes_options, to_args, OptionDef, OptionValue};
use crate::planetiler::{texts, PlanetilerJob, Schema};
use crate::settings::Settings;
use crate::state::StepStatus;
use crate::progress::LogEvent;
use crate::steps::{plan, plan_of, StepEvent, StepId};
use crate::text::{chars_of, concat_str, join, path_join, push_all, string_of};
use crate::desktop::{shell_words, split_args};

verus! {

/// How a step's work is done.
#[derive(Debug, Clone, Copy, PartialEq, Eq, Structural)]
pub enum StepRunner {
    /// Fetch the area's OSM extract.
    Download,
    /// Fetch the `.hgt` tiles covering the area.
    Elevation,
    /// Run a Valhalla command-line tool.
    ValhallaTool,
    /// Render terrain tiles.
    Terrain,
    /// Pack the routing graph.
    ValhallaPackage,
    /// Run planetiler.
    Planetiler,
}

pub open spec fn runner_of(step: StepId) -> StepRunner {
    match step {
        StepId::DownloadOsm => StepRunner::Download,
        StepId::ElevationTiles => StepRunner::Elevation,
        StepId::ValhallaTiles => StepRunner::ValhallaTool,
        StepId::TerrainRgb | StepId::Hillshade => StepRunner::Terrain,
        StepId::ValhallaPackage => StepRunner::ValhallaPackage,
        StepId::Basemap | StepId::Routes => StepRunner::Planetiler,
    }
}

/// Which kind of work a step is.
pub fn runner_for(step: StepId) -> (r: StepRunner)
    ensures
        r == runner_of(step),
{
    match step {
        StepId::DownloadOsm => StepRunner::Download,
        StepId::ElevationTiles => StepRunner::Elevation,
        StepId::ValhallaTiles => StepRunner::ValhallaTool,
        StepId::TerrainRgb | StepId::Hillshade => StepRunner::Terrain,
        StepId::ValhallaPackage => StepRunner::ValhallaPackage,
        StepId::Basemap | StepId::Routes => StepRunner::Planetiler,
    }
}

/// Whether a step is forced to run even when its output is there.
pub fn is_forced(step: StepId, force_all: bool, force: &[StepId]) -> (r: bool)
    ensures
        r == (force_all || force@.contains(step)),
{
    if force_all {
        return true;
    }
    let mut i: usize = 0;
    while i < force.len()
        invariant
            i <= force@.len(),
            forall|j: int| 0 <= j < i ==> force@[j] != step,
        decreases force@.len() - i,
    {
        if force[i] == step {
            return true;
        }
        i = i + 1;
    }
    false
}

/// Whether a step can be skipped: not forced, and its output already built.
pub fn should_skip(forced: bool, status: &StepStatus) -> (r: bool)
    ensures
        r == (!forced && (*status is Built)),
{
    !forced && status.is_fresh()
}

/// One run over a plan: the steps in order, how far it has come, and whether it stopped.
#[derive(Debug, Clone)]
pub struct Run {
    pub ordered: Vec<StepId>,
    /// The steps done so far, skipped or run, in order.
    pub completed: Vec<StepId>,
    /// Set when a step failed or was cancelled; nothing runs after that.
    pub stopped: bool,
}

impl Run {
    /// Whether the run's record of itself holds together: what is done is the plan's beginning.
    pub open spec fn wf(&self) -> bool {
        &&& self.completed@.len() <= self.ordered@.len()
        &&& self.completed@ == self.ordered@.take(self.completed@.len() as int)
    }

    /// The step to deal with next, if the run is still going.
    pub open spec fn current_step(&self) -> Option<StepId> {
        if self.stopped || self.completed@.len() >= self.ordered@.len() {
            None
        } else {
            Some(self.ordered@[self.completed@.len() as int])
        }
    }

    /// A run over the steps `requested` needs, in dependency order.
    pub fn new(requested: &[StepId]) -> (r: Run)
        ensures
            r.wf(),
            r.ordered@ == plan_of(requested@),
            r.completed@.len() == 0,
            !r.stopped,
    {
        let r = Run { ordered: plan(requested), completed: Vec::new(), stopped: false };
        assert(r.completed@ =~= r.ordered@.take(0));
        r
    }

    /// The step to deal with next, or `None` when the run is over.
    pub fn current(&self) -> (s: Option<StepId>)
        requires
            self.wf(),
        ensures
            s == self.current_step(),
    {
        if self.stopped || self.completed.len() >= self.ordered.len() {
            None
        } else {
            Some(self.ordered[self.completed.len()])
        }
    }

    /// The current step is done: skipped because its output was there, or run successfully.
    pub fn done(&mut self)
        requires
            old(self).wf(),
            old(self).current_step() is Some,
        ensures
            final(self).wf(),
            final(self).ordered == old(self).ordered,
            final(self).completed@ == old(self).completed@.push(old(self).current_step().unwrap()),
            final(self).stopped == old(self).stopped,
    {
        let step = self.ordered[self.completed.len()];
        let ghost before = self.completed@;
        self.completed.push(step);
        assert(self.completed@ =~= self.ordered@.take(self.completed@.len() as int));
    }

    /// The current step failed or was cancelled: the run ends here.
    pub fn failed(&mut self)
        requires
            old(self).wf(),
        ensures
            final(self).wf(),
            final(self).ordered == old(self).ordered,
            final(self).completed == old(self).completed,
            final(self).stopped,
            final(self).current_step() is None,
    {
        self.stopped = true;
    }

    /// What the run reports at its end: the steps done, in order.
    pub fn into_completed(self) -> (c: Vec<StepId>)
        ensures
            c == self.completed,
    {
        self.completed
    }
}

/// Whatever a run goes through, what it reports done is the beginning of its plan, in plan
/// order; and once it has stopped, it offers no further step.
pub proof fn run_reports_a_prefix_of_the_plan(r: Run)
    requires
        r.wf(),
    ensures
        forall|i: int| 0 <= i < r.completed@.len() ==> r.completed@[i] == r.ordered@[i],
        r.stopped ==> r.current_step() is None,
        r.current_step() matches Some(s) ==> s == r.ordered@[r.completed@.len() as int],
{
    assert forall|i: int| 0 <= i < r.completed@.len() implies r.completed@[i] == r.ordered@[i] by {
        assert(r.ordered@.take(r.completed@.len() as int)[i] == r.ordered@[i]);
    }
}

/// The schema a planetiler step's options come from.
pub open spec fn defs_for_step(step: StepId, defs: Seq<OptionDef>) -> bool {
    &&& step == StepId::Routes ==> crate::options::keys_and_flags(defs) == crate::options::common_keys() + crate::options::routes_extra_keys()
    &&& step != StepId::Routes ==> crate::options::keys_and_flags(defs) == crate::options::common_keys() + crate::options::basemap_extra_keys()
}

/// The option definitions for a planetiler step: the routes schema for routes, the basemap
/// schema otherwise.
pub fn step_defs(step: StepId) -> (defs: Vec<OptionDef>)
    ensures
        defs_for_step(step, defs@),
{
    if step == StepId::Routes {
        routes_options()
    } else {
        basemap_options()
    }
}

/// How a step's name reads in a temp directory's name.
pub open spec fn step_name(step: StepId) -> Seq<char> {
    match step {
        StepId::DownloadOsm => "DownloadOsm"@,
        StepId::ElevationTiles => "ElevationTiles"@,
        StepId::Basemap => "Basemap"@,
        StepId::Routes => "Routes"@,
        StepId::TerrainRgb => "TerrainRgb"@,
        StepId::Hillshade => "Hillshade"@,
        StepId::ValhallaTiles => "ValhallaTiles"@,
        StepId::ValhallaPackage => "ValhallaPackage"@,
    }
}

fn step_name_exec(step: StepId) -> (r: &'static str)
    ensures
        r@ == step_name(step),
{
    match step {
        StepId::DownloadOsm => "DownloadOsm",
        StepId::ElevationTiles => "ElevationTiles",
        StepId::Basemap => "Basemap",
        StepId::Routes => "Routes",
        StepId::TerrainRgb => "TerrainRgb",
        StepId::Hillshade => "Hillshade",
        StepId::ValhallaTiles => "ValhallaTiles",
        StepId::ValhallaPackage => "ValhallaPackage",
    }
}

/// The arguments a planetiler step adds to its job, in order: the download and area flags, the
/// collected option values, then whatever was typed as extra arguments.
pub open spec fn step_args(area: Seq<char>, defs: Seq<OptionDef>, values: Seq<(String, OptionValue)>, extra: Seq<char>) -> Seq<Seq<char>> {
    seq!["--download"@, "--area="@ + area, "--force"@] + args_of(defs, values) + shell_words(extra)
}

/// The planetiler job for a basemap or routes step.
///
/// It writes `<area>.mbtiles` (or `<area>_routes.mbtiles`) into the area directory, works in a
/// temp directory of its own named after the area and the step, and runs from the checkout.
pub fn planetiler_job(
    settings: &Settings,
    area: &str,
    step: StepId,
    java: &str,
    jar: &str,
    schema: Schema,
    values: &[(String, OptionValue)],
    extra: &str,
) -> (job: PlanetilerJob)
    ensures
        job.step == step,
        job.area@ == area@,
        job.java@ == java@,
        job.jar@ == jar@,
        job.schema == schema,
        job.heap_mb == settings.heap_mb,
        job.output@ == path_join(path_join(settings.output_root@, area@),
            area@ + (if step == StepId::Routes { "_routes"@ } else { ""@ }) + ".mbtiles"@),
        job.tmp_dir@ == run_tmp(*settings, area@, step),
        exists|defs: Seq<OptionDef>| defs_for_step(step, defs) && texts(job.extra_args@) == step_args(area@, defs, values@, extra@),
        job.working_dir@ == settings.repo_root@,
        job.log_interval@ == settings.log_interval@,
{
    let defs = step_defs(step);
    let mut args: Vec<String> = Vec::new();
    args.push(String::from_str("--download"));
    args.push(concat_str("--area=", area));
    args.push(String::from_str("--force"));
    let ghost head = texts(args@);
    assert(head =~= seq!["--download"@, "--area="@ + area@, "--force"@]);
    let rendered = to_args(defs.as_slice(), values);
    let typed = split_args(extra);
    let ghost a = args@;
    let mut i: usize = 0;
    while i < rendered.len()
        invariant
            i <= rendered@.len(),
            args@ == a + rendered@.take(i as int),
        decreases rendered@.len() - i,
    {
        args.push(rendered[i].clone());
        assert(args@ =~= a + rendered@.take(i + 1));
        i = i + 1;
    }
    let ghost b = args@;
    let mut k: usize = 0;
    while k < typed.len()
        invariant
            k <= typed@.len(),
            args@ == b + typed@.take(k as int),
        decreases typed@.len() - k,
    {
        args.push(typed[k].clone());
        assert(args@ =~= b + typed@.take(k + 1));
        k = k + 1;
    }
    assert(rendered@.take(rendered@.len() as int) =~= rendered@);
    assert(typed@.take(typed@.len() as int) =~= typed@);
    assert(texts(args@) =~= step_args(area@, defs@, values@, extra@));
    let suffix = if step == StepId::Routes { "_routes" } else { "" };
    let name = concat_str(concat_str(area, suffix).as_str(), ".mbtiles");
    let dir = settings.area_dir(area);
    let tmp_name = concat_str(concat_str(area, "-").as_str(), step_name_exec(step));
    PlanetilerJob {
        step,
        area: String::from_str(area),
        java: String::from_str(java),
        jar: String::from_str(jar),
        schema,
        heap_mb: settings.heap_mb,
        output: join(dir.as_str(), name.as_str()),
        tmp_dir: settings.run_tmp_dir(tmp_name.as_str()),
        extra_args: args,
        working_dir: settings.repo_root.clone(),
        log_interval: settings.log_interval.clone(),
    }
}

/// What one planetiler log line tells whoever watches a step, and, for the end of a phase, its
/// elapsed time, which is the run's total once the last phase ends.
pub fn step_event(step: StepId, ev: LogEvent) -> (r: (StepEvent, Option<String>))
    ensures
        match ev {
            LogEvent::PhaseStart { stage } => (r.0 matches StepEvent::Phase { step: s, name } && s == step && name@ == stage@) && r.1 is None,
            LogEvent::Progress { label, percent, .. } => (r.0 matches StepEvent::Progress { step: s, label: l, percent: p }
                && s == step && l@ == label@ && p == percent) && r.1 is None,
            LogEvent::RunEnd => (r.0 matches StepEvent::Log { step: s, line } && s == step && line@ == "FINISHED!"@) && r.1 is None,
            LogEvent::PhaseEnd { stage, elapsed } => (r.0 matches StepEvent::Log { step: s, line } && s == step
                && line@ == stage@ + " finished in "@ + elapsed@) && (r.1 matches Some(e) && e@ == elapsed@),
            LogEvent::ZoomEnd { zoom, elapsed, .. } => (r.0 matches StepEvent::Phase { step: s, name } && s == step
                && name@ == "archive z"@ + crate::text::decimal(zoom as nat) + " ("@ + elapsed@ + ")"@) && r.1 is None,
            LogEvent::Log { line } => (r.0 matches StepEvent::Log { step: s, line: l } && s == step && l@ == line@) && r.1 is None,
        },
{
    match ev {
        LogEvent::PhaseStart { stage } => (StepEvent::Phase { step, name: stage }, None),
        LogEvent::Progress { label, percent, .. } => (StepEvent::Progress { step, label, percent }, None),
        LogEvent::RunEnd => (StepEvent::Log { step, line: String::from_str("FINISHED!") }, None),
        LogEvent::PhaseEnd { stage, elapsed } => {
            let line = concat_str(concat_str(stage.as_str(), " finished in ").as_str(), elapsed.as_str());
            (StepEvent::Log { step, line }, Some(elapsed))
        },
        LogEvent::ZoomEnd { zoom, elapsed, .. } => {
            let mut v = chars_of("archive z");
            crate::text::push_decimal(&mut v, zoom as u64);
            let open = chars_of(" (");
            push_all(&mut v, open.as_slice());
            let e = chars_of(elapsed.as_str());
            push_all(&mut v, e.as_slice());
            let close = chars_of(")");
            push_all(&mut v, close.as_slice());
            (StepEvent::Phase { step, name: string_of(v.as_slice()) }, None)
        },
        LogEvent::Log { line } => (StepEvent::Log { step, line }, None),
    }
}


/// A list of arguments without any that is exactly `t`.
pub open spec fn without_arg(args: Seq<Seq<char>>, t: Seq<char>) -> Seq<Seq<char>>
    decreases args.len(),
{
    if args.len() == 0 {
        Seq::empty()
    } else {
        let rest = without_arg(args.drop_last(), t);
        if args.last() == t {
            rest
        } else {
            rest.push(args.last())
        }
    }
}

/// The arguments a command-line planetiler run adds to a job's: without `--download` when the
/// extract already on disk is to be used, then `--polygon=` when a clip shape is given, then
/// whatever came after `--`, verbatim.
pub open spec fn cli_args(extra: Seq<Seq<char>>, download: bool, polygon: Option<Seq<char>>, passthrough: Seq<Seq<char>>) -> Seq<Seq<char>> {
    (if download { extra } else { without_arg(extra, "--download"@) })
        + (match polygon {
        Some(p) => seq!["--polygon="@ + p],
        None => Seq::<Seq<char>>::empty(),
    }) + passthrough
}

/// A job's extra arguments with the command line's own flags applied; see [`cli_args`].
pub fn with_cli_flags(extra: Vec<String>, download: bool, polygon: Option<&str>, passthrough: &[String]) -> (out: Vec<String>)
    ensures
        texts(out@) == cli_args(
            texts(extra@),
            download,
            match polygon {
                Some(p) => Some(p@),
                None => None,
            },
            texts(passthrough@),
        ),
{
    let mut out: Vec<String> = Vec::new();
    let mut i: usize = 0;
    while i < extra.len()
        invariant
            i <= extra@.len(),
            texts(out@) == (if download { texts(extra@).take(i as int) } else { without_arg(texts(extra@).take(i as int), "--download"@) }),
        decreases extra@.len() - i,
    {
        let ghost before = out@;
        assert(texts(extra@).take(i + 1).drop_last() =~= texts(extra@).take(i as int));
        if download || !crate::text::same_text(extra[i].as_str(), "--download") {
            out.push(extra[i].clone());
            assert(texts(out@) =~= texts(before).push(extra@[i as int]@));
        }
        i = i + 1;
    }
    assert(texts(extra@).take(i as int) =~= texts(extra@));
    let ghost kept = texts(out@);
    match polygon {
        Some(p) => {
            out.push(concat_str("--polygon=", p));
        },
        None => {},
    }
    let ghost head = texts(out@);
    let mut j: usize = 0;
    while j < passthrough.len()
        invariant
            j <= passthrough@.len(),
            texts(out@) == head + texts(passthrough@).take(j as int),
        decreases passthrough@.len() - j,
    {
        let ghost before = out@;
        out.push(passthrough[j].clone());
        assert(texts(out@) =~= texts(before).push(passthrough@[j as int]@));
        assert(texts(passthrough@).take(j + 1) =~= texts(passthrough@).take(j as int).push(passthrough@[j as int]@));
        j = j + 1;
    }
    assert(texts(passthrough@).take(j as int) =~= texts(passthrough@));
    assert(texts(out@) =~= cli_args(
        texts(extra@),
        download,
        match polygon {
            Some(p) => Some(p@),
            None => None,
        },
        texts(passthrough@),
    ));
    out
}

/// What a look at a run's cancel channel found.
#[derive(Debug, Clone, Copy, PartialEq, Eq, Structural)]
pub enum CancelPoll {
    /// A cancel was sent.
    Requested,
    /// Nothing yet.
    Nothing,
    /// Every sender has gone, so nobody can cancel any more.
    SenderGone,
}

/// Whether a run is to be killed: only when a cancel was sent. A channel whose senders have all
/// gone is no cancel - treating it as one would kill a build the moment a caller stopped holding
/// the sender, which looks exactly like the tool failing for no reason - so the run goes on.
pub fn cancel_requested(p: CancelPoll) -> (stop: bool)
    ensures
        stop == (p is Requested),
{
    match p {
        CancelPoll::Requested => true,
        CancelPoll::Nothing => false,
        CancelPoll::SenderGone => false,
    }
}

/// How a planetiler run ended, as the event that closes it: it succeeded only when the process
/// exited cleanly and was not cancelled, and only then is its archive reported as an output.
/// The elapsed time is the one from the last phase that reported finishing.
pub fn finished_event(step: StepId, output: &str, exited_ok: bool, cancelled: bool, last_elapsed: Option<String>) -> (e: StepEvent)
    ensures
        e matches StepEvent::Finished { step: s, ok, elapsed, outputs } && s == step && ok == (exited_ok && !cancelled)
            && elapsed == last_elapsed
            && texts(outputs@) == (if exited_ok && !cancelled { seq![output@] } else { Seq::<Seq<char>>::empty() }),
{
    let ok = exited_ok && !cancelled;
    let mut outputs: Vec<String> = Vec::new();
    if ok {
        outputs.push(String::from_str(output));
    }
    assert(texts(outputs@) =~= (if ok { seq![output@] } else { Seq::<Seq<char>>::empty() }));
    StepEvent::Finished { step, ok, elapsed: last_elapsed, outputs }
}


/// Where a planetiler run of `step` for `area` works.
pub open spec fn run_tmp(s: Settings, area: Seq<char>, step: StepId) -> Seq<char> {
    path_join(s.tmp_dir@, area + "-"@ + step_name(step))
}

/// Two planetiler runs for different areas, or for the two planetiler steps of one area, never
/// share a temp directory: they write sort chunks there, and a shared one is how one run deletes
/// another's. (An area written as an absolute path is left out: joined onto the temp root it
/// replaces it, as a path does.)
pub proof fn runs_never_share_a_tmp_dir(s: Settings, a1: Seq<char>, st1: StepId, a2: Seq<char>, st2: StepId)
    requires
        st1 == StepId::Basemap || st1 == StepId::Routes,
        st2 == StepId::Basemap || st2 == StepId::Routes,
        !(a1.len() > 0 && a1[0] == '/'),
        !(a2.len() > 0 && a2[0] == '/'),
        !(a1 == a2 && st1 == st2),
    ensures
        run_tmp(s, a1, st1) != run_tmp(s, a2, st2),
{
    reveal_strlit("-");
    reveal_strlit("Basemap");
    reveal_strlit("Routes");
    let r1 = a1 + "-"@ + step_name(st1);
    let r2 = a2 + "-"@ + step_name(st2);
    let t = s.tmp_dir@;
    assert(r1.len() > 0 && r1[0] != '/') by {
        if a1.len() == 0 {
            assert(r1[0] == '-');
        } else {
            assert(r1[0] == a1[0]);
        }
    }
    assert(r2.len() > 0 && r2[0] != '/') by {
        if a2.len() == 0 {
            assert(r2[0] == '-');
        } else {
            assert(r2[0] == a2[0]);
        }
    }
    let sep: Seq<char> = if t.len() == 0 || t.last() == '/' { Seq::empty() } else { seq!['/'] };
    assert(run_tmp(s, a1, st1) == t + sep + r1);
    assert(run_tmp(s, a2, st2) == t + sep + r2);
    if run_tmp(s, a1, st1) == run_tmp(s, a2, st2) {
        let k: int = (t.len() + sep.len()) as int;
        assert(r1 =~= (t + sep + r1).skip(k));
        assert(r2 =~= (t + sep + r2).skip(k));
        assert(r1 == r2);
        if st1 == st2 {
            let n = step_name(st1);
            assert(a1 =~= r1.take(r1.len() - 1 - n.len()));
            assert(a2 =~= r2.take(r2.len() - 1 - n.len()));
        } else {
            assert(r1.last() == step_name(st1).last());
            assert(r2.last() == step_name(st2).last());
        }
    }
}

} // verus!
