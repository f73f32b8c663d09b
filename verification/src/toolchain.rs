//! Finding a Java runtime for planetiler.
//!
//! Planetiler runs as a subprocess, so the app needs a Java 21+ on disk but does not care where
//! it came from. Resolution order is explicit override, then app-managed, then `$JAVA_HOME`,
//! then `$PATH`; a candidate qualifies when `java -version` reports a new enough release.
use vstd::prelude::*;
use crate::text::{chars_of, join, lemma_run, parse_u32_range, parse_unsigned, path_join, run, run_end, slice_of, Class};

verus! {

/// Minimum planetiler will run on.
pub const MIN_JAVA: u32 = 21;

#[derive(Debug, Clone, PartialEq)]
pub struct JavaInstall {
    pub path: String,
    pub version: u32,
    pub source: JavaSource,
}

#[derive(Debug, Clone, Copy, PartialEq, Eq, Structural)]
pub enum JavaSource {
    /// Explicitly configured in settings.
    Configured,
    /// Downloaded by us into the app data dir.
    Managed,
    /// `$JAVA_HOME/bin/java`.
    JavaHome,
    /// Found on `$PATH`.
    Path,
}

/// The text between the first double quote and the next one (or the end).
pub open spec fn quoted(s: Seq<char>) -> Option<Seq<char>> {
    let open = run(s, 0, Class::NotQuote) as int;
    if open >= s.len() {
        None
    } else {
        Some(s.subrange(open + 1, open + 1 + run(s, open + 1, Class::NotQuote)))
    }
}

/// The feature version in `java -version` output.
///
/// The quoted version is split on `.`, `_` and `-`; its first field is the version, except in
/// the legacy `1.x` scheme, where it is the second:
///   openjdk version "21.0.11" 2026-04-21   -> 21
///   java version "1.8.0_452"               -> 8
pub open spec fn java_version(s: Seq<char>) -> Option<nat> {
    match quoted(s) {
        None => None,
        Some(q) => {
            let e1 = run(q, 0, Class::NotVersionSep) as int;
            match parse_unsigned(q.subrange(0, e1), u32::MAX as nat) {
                None => None,
                Some(first) => if first == 1 {
                    if e1 >= q.len() {
                        None
                    } else {
                        parse_unsigned(
                            q.subrange(e1 + 1, e1 + 1 + run(q, e1 + 1, Class::NotVersionSep)),
                            u32::MAX as nat,
                        )
                    }
                } else {
                    Some(first)
                },
            }
        },
    }
}

/// Parse the feature version out of `java -version` output (which vendors print to stderr).
pub fn parse_version(output: &str) -> (r: Option<u32>)
    ensures
        r matches Some(v) ==> java_version(output@) == Some(v as nat),
        r is None ==> java_version(output@) is None,
{
    let s = chars_of(output);
    let open = run_end(&s, 0, Class::NotQuote);
    if open >= s.len() {
        return None;
    }
    let close = run_end(&s, open + 1, Class::NotQuote);
    let q = slice_of(&s, open + 1, close);
    let e1 = run_end(&q, 0, Class::NotVersionSep);
    let first = match parse_u32_range(&q, 0, e1) {
        Some(f) => f,
        None => return None,
    };
    if first == 1 {
        if e1 >= q.len() {
            return None;
        }
        let e2 = run_end(&q, e1 + 1, Class::NotVersionSep);
        parse_u32_range(&q, e1 + 1, e2)
    } else {
        Some(first)
    }
}

/// The `java` binary inside a Java home directory: `<dir>/bin/java`.
pub fn exe(dir: &str) -> (p: String)
    ensures
        p@ == path_join(path_join(dir@, "bin"@), "java"@),
{
    let bin = join(dir, "bin");
    join(bin.as_str(), "java")
}

/// Adoptium's name for an operating system, as `std::env::consts::OS` spells it.
pub open spec fn adoptium_os(os: Seq<char>) -> Option<Seq<char>> {
    if os == "macos"@ {
        Some("mac"@)
    } else if os == "linux"@ {
        Some("linux"@)
    } else if os == "windows"@ {
        Some("windows"@)
    } else {
        None
    }
}

/// Adoptium's name for an architecture, as `std::env::consts::ARCH` spells it.
pub open spec fn adoptium_arch(arch: Seq<char>) -> Option<Seq<char>> {
    if arch == "x86_64"@ {
        Some("x64"@)
    } else if arch == "aarch64"@ {
        Some("aarch64"@)
    } else {
        None
    }
}

/// Why a JRE cannot be downloaded for a host.
#[derive(Debug, Clone, PartialEq)]
pub enum HostError {
    UnsupportedOs(String),
    UnsupportedArch(String),
}

/// Adoptium's binary redirect endpoint for a host.
pub fn adoptium_url(feature_version: u32, os: &str, arch: &str) -> (r: Result<String, HostError>)
    ensures
        r matches Ok(u) ==> adoptium_os(os@) matches Some(o) && adoptium_arch(arch@) matches Some(
            a,
        ) && u@ == "https://api.adoptium.net/v3/binary/latest/"@ + crate::text::decimal(
            feature_version as nat,
        ) + "/ga/"@ + o + "/"@ + a + "/jre/hotspot/normal/eclipse"@,
        r matches Err(e) ==> match e {
            HostError::UnsupportedOs(name) => adoptium_os(os@) is None && name@ == os@,
            HostError::UnsupportedArch(name) => adoptium_os(os@) is Some && adoptium_arch(arch@)
                is None && name@ == arch@,
        },
{
    let o = if crate::text::same_text(os, "macos") {
        "mac"
    } else if crate::text::same_text(os, "linux") {
        "linux"
    } else if crate::text::same_text(os, "windows") {
        "windows"
    } else {
        return Err(HostError::UnsupportedOs(String::from_str(os)));
    };
    let a = if crate::text::same_text(arch, "x86_64") {
        "x64"
    } else if crate::text::same_text(arch, "aarch64") {
        "aarch64"
    } else {
        return Err(HostError::UnsupportedArch(String::from_str(arch)));
    };
    let mut v = chars_of("https://api.adoptium.net/v3/binary/latest/");
    crate::text::push_decimal(&mut v, feature_version as u64);
    let p1 = chars_of("/ga/");
    crate::text::push_all(&mut v, p1.as_slice());
    let p2 = chars_of(o);
    crate::text::push_all(&mut v, p2.as_slice());
    let p3 = chars_of("/");
    crate::text::push_all(&mut v, p3.as_slice());
    let p4 = chars_of(a);
    crate::text::push_all(&mut v, p4.as_slice());
    let p5 = chars_of("/jre/hotspot/normal/eclipse");
    crate::text::push_all(&mut v, p5.as_slice());
    Ok(crate::text::string_of(v.as_slice()))
}

/// The `java` binaries to try, in order, with where each came from: a configured home (as a
/// Java home, then as the binary itself), the app-managed runtime, `$JAVA_HOME`, then `java` on
/// `$PATH`.
pub open spec fn java_candidates(configured: Option<Seq<char>>, managed: Option<Seq<char>>, java_home: Option<Seq<char>>) -> Seq<(Seq<char>, JavaSource)> {
    (match configured {
        Some(c) => seq![(path_join(path_join(c, "bin"@), "java"@), JavaSource::Configured), (c, JavaSource::Configured)],
        None => Seq::empty(),
    }) + (match managed {
        Some(m) => seq![(path_join(path_join(m, "bin"@), "java"@), JavaSource::Managed)],
        None => Seq::empty(),
    }) + (match java_home {
        Some(h) => seq![(path_join(path_join(h, "bin"@), "java"@), JavaSource::JavaHome)],
        None => Seq::empty(),
    }) + seq![("java"@, JavaSource::Path)]
}

/// The binaries to probe for a Java runtime, in the order they are tried.
pub fn candidates(configured: Option<&str>, managed: Option<&str>, java_home: Option<&str>) -> (c: Vec<(String, JavaSource)>)
    ensures
        c@.map_values(|p: (String, JavaSource)| (p.0@, p.1)) == java_candidates(
            match configured { Some(s) => Some(s@), None => None },
            match managed { Some(s) => Some(s@), None => None },
            match java_home { Some(s) => Some(s@), None => None },
        ),
{
    let mut c: Vec<(String, JavaSource)> = Vec::new();
    if let Some(home) = configured {
        c.push((exe(home), JavaSource::Configured));
        c.push((String::from_str(home), JavaSource::Configured));
    }
    if let Some(m) = managed {
        c.push((exe(m), JavaSource::Managed));
    }
    if let Some(h) = java_home {
        c.push((exe(h), JavaSource::JavaHome));
    }
    c.push((String::from_str("java"), JavaSource::Path));
    assert(c@.map_values(|p: (String, JavaSource)| (p.0@, p.1)) =~= java_candidates(
        match configured { Some(s) => Some(s@), None => None },
        match managed { Some(s) => Some(s@), None => None },
        match java_home { Some(s) => Some(s@), None => None },
    ));
    c
}

/// The first candidate that reported a version of at least `MIN_JAVA`.
pub open spec fn first_usable(c: Seq<(Seq<char>, JavaSource)>, versions: Seq<Option<u32>>) -> Option<(Seq<char>, u32, JavaSource)>
    decreases c.len(),
{
    if c.len() == 0 || versions.len() == 0 {
        None
    } else if versions[0] matches Some(v) && v >= MIN_JAVA {
        Some((c[0].0, versions[0].unwrap(), c[0].1))
    } else {
        first_usable(c.drop_first(), versions.drop_first())
    }
}

/// The Java runtime to use: the first candidate whose probe (`versions[i]`, `None` when it did
/// not run or said nothing readable) is new enough.
pub fn pick_java(c: &[(String, JavaSource)], versions: &[Option<u32>]) -> (r: Option<JavaInstall>)
    ensures
        match first_usable(c@.map_values(|p: (String, JavaSource)| (p.0@, p.1)), versions@) {
            Some((path, version, source)) => (r matches Some(j) && j.path@ == path && j.version == version && j.source == source),
            None => r is None,
        },
{
    let ghost cv = c@.map_values(|p: (String, JavaSource)| (p.0@, p.1));
    let mut i: usize = 0;
    assert(cv.skip(0) =~= cv);
    assert(versions@.skip(0) =~= versions@);
    while i < c.len() && i < versions.len()
        invariant
            i <= c@.len(),
            i <= versions@.len(),
            cv == c@.map_values(|p: (String, JavaSource)| (p.0@, p.1)),
            first_usable(cv, versions@) == first_usable(cv.skip(i as int), versions@.skip(i as int)),
        decreases c@.len() - i,
    {
        assert(cv.skip(i as int).drop_first() =~= cv.skip(i + 1));
        assert(versions@.skip(i as int).drop_first() =~= versions@.skip(i + 1));
        assert(cv.skip(i as int)[0] == cv[i as int]);
        assert(versions@.skip(i as int)[0] == versions@[i as int]);
        if let Some(v) = versions[i] {
            if v >= MIN_JAVA {
                return Some(JavaInstall { path: c[i].0.clone(), version: v, source: c[i].1 });
            }
        }
        i = i + 1;
    }
    assert(cv.skip(i as int).len() == 0 || versions@.skip(i as int).len() == 0);
    None
}


/// Where an unpacked runtime under the managed root may keep its Java home: macOS bundles it
/// under `Contents/Home`, Linux and Windows at the top. Both, for each directory, in order.
pub open spec fn runtime_homes(dirs: Seq<Seq<char>>) -> Seq<Seq<char>>
    decreases dirs.len(),
{
    if dirs.len() == 0 {
        Seq::empty()
    } else {
        runtime_homes(dirs.drop_last()) + seq![path_join(dirs.last(), "Contents/Home"@), dirs.last()]
    }
}

/// The Java homes to try under the managed root, given its subdirectories; the first whose
/// `bin/java` exists is the managed runtime.
pub fn managed_homes(dirs: &[String]) -> (h: Vec<String>)
    ensures
        crate::planetiler::texts(h@) == runtime_homes(crate::planetiler::texts(dirs@)),
{
    let mut h: Vec<String> = Vec::new();
    let mut i: usize = 0;
    while i < dirs.len()
        invariant
            i <= dirs@.len(),
            crate::planetiler::texts(h@) == runtime_homes(crate::planetiler::texts(dirs@).take(i as int)),
        decreases dirs@.len() - i,
    {
        let ghost before = h@;
        h.push(join(dirs[i].as_str(), "Contents/Home"));
        h.push(dirs[i].clone());
        i = i + 1;
        let ghost t = crate::planetiler::texts(dirs@).take(i as int);
        assert(t.drop_last() =~= crate::planetiler::texts(dirs@).take(i - 1));
        assert(crate::planetiler::texts(h@) =~= crate::planetiler::texts(before)
            + seq![path_join(dirs@[i - 1]@, "Contents/Home"@), dirs@[i - 1]@]);
    }
    assert(crate::planetiler::texts(dirs@).take(i as int) =~= crate::planetiler::texts(dirs@));
    h
}

} // verus!
