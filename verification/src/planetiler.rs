//! Planetiler's command line.
//!
//! Planetiler runs as a subprocess, not embedded: builds take tens of gigabytes of heap, a
//! cancelled build is cleaned up by killing the process, and it refuses a second run in one JVM.
//! Each job gets its own temp directory, since two runs sharing one delete each other's sort
//! chunks.
use vstd::prelude::*;
use crate::steps::StepId;
use crate::text::{chars_of, decimal, push_all, push_decimal, string_of};

verus! {

/// Which planetiler entry point to invoke.
#[derive(Debug, Clone, PartialEq)]
pub enum Schema {
    /// The bundled OpenMapTiles fork.
    OpenMapTiles,
    /// Any YAML custommap schema.
    Yaml { path: String },
}

pub open spec fn subcommand_text(s: Schema) -> Seq<char> {
    match s {
        Schema::OpenMapTiles => "openmaptiles"@,
        Schema::Yaml { .. } => "custom"@,
    }
}

impl Schema {
    pub fn subcommand(&self) -> (r: &'static str)
        ensures
            r@ == subcommand_text(*self),
    {
        match self {
            Schema::OpenMapTiles => "openmaptiles",
            Schema::Yaml { .. } => "custom",
        }
    }
}

#[derive(Debug, Clone, PartialEq)]
pub struct PlanetilerJob {
    pub step: StepId,
    pub area: String,
    pub java: String,
    pub jar: String,
    pub schema: Schema,
    pub heap_mb: u32,
    pub output: String,
    /// Per-run temp directory; never shared between two runs.
    pub tmp_dir: String,
    /// Everything else, verbatim: `--area=`, `--polygon=`, the simplification flags.
    pub extra_args: Vec<String>,
    pub working_dir: String,
    /// Planetiler's `--loginterval`, which gates how often a progress line is printed.
    pub log_interval: String,
}

pub open spec fn texts(v: Seq<String>) -> Seq<Seq<char>> {
    v.map_values(|s: String| s@)
}

/// The argument vector a job runs with.
pub open spec fn job_argv(j: PlanetilerJob) -> Seq<Seq<char>> {
    seq![j.java@, "-Xmx"@ + decimal(j.heap_mb as nat) + "m"@, "-jar"@, j.jar@, subcommand_text(j.schema)]
        + (match j.schema {
        Schema::Yaml { path } => seq!["--schema="@ + path@],
        Schema::OpenMapTiles => Seq::empty(),
    }) + seq!["--mbtiles="@ + j.output@, "--tmpdir="@ + j.tmp_dir@, "--loginterval="@ + j.log_interval@]
        + texts(j.extra_args@)
}

fn flag(name: &str, value: &str) -> (s: String)
    ensures
        s@ == name@ + value@,
{
    crate::text::concat_str(name, value)
}

impl PlanetilerJob {
    pub fn command_line(&self) -> (argv: Vec<String>)
        ensures
            texts(argv@) == job_argv(*self),
    {
        let mut heap = chars_of("-Xmx");
        push_decimal(&mut heap, self.heap_mb as u64);
        let m = chars_of("m");
        push_all(&mut heap, m.as_slice());
        let mut argv: Vec<String> = Vec::new();
        argv.push(self.java.clone());
        argv.push(string_of(heap.as_slice()));
        argv.push(String::from_str("-jar"));
        argv.push(self.jar.clone());
        argv.push(String::from_str(self.schema.subcommand()));
        if let Schema::Yaml { path } = &self.schema {
            argv.push(flag("--schema=", path.as_str()));
        }
        argv.push(flag("--mbtiles=", self.output.as_str()));
        argv.push(flag("--tmpdir=", self.tmp_dir.as_str()));
        argv.push(flag("--loginterval=", self.log_interval.as_str()));
        let ghost head = argv@;
        let mut i: usize = 0;
        while i < self.extra_args.len()
            invariant
                i <= self.extra_args@.len(),
                argv@ == head + self.extra_args@.take(i as int),
            decreases self.extra_args@.len() - i,
        {
            argv.push(self.extra_args[i].clone());
            assert(head + self.extra_args@.take(i + 1) =~= (head + self.extra_args@.take(i as int)).push(
                self.extra_args@[i as int],
            ));
            i = i + 1;
        }
        assert(self.extra_args@.take(self.extra_args@.len() as int) =~= self.extra_args@);
        assert(texts(argv@) =~= job_argv(*self));
        argv
    }
}

} // verus!
