//! The build graph: which steps exist, what each needs first, and the order to run a selection.
use vstd::prelude::*;

verus! {

/// Identifies a step in the build graph.
#[derive(Debug, Clone, Copy, PartialEq, Eq, Structural, Hash, PartialOrd, Ord)]
pub enum StepId {
    DownloadOsm,
    ElevationTiles,
    Basemap,
    Routes,
    TerrainRgb,
    Hillshade,
    ValhallaTiles,
    ValhallaPackage,
}

/// Every step, in a stable order for listing.
pub const ALL_STEPS: [StepId; 8] = [
    StepId::DownloadOsm,
    StepId::ElevationTiles,
    StepId::Basemap,
    StepId::Routes,
    StepId::TerrainRgb,
    StepId::Hillshade,
    StepId::ValhallaTiles,
    StepId::ValhallaPackage,
];

/// The steps each step depends on directly, in the order they are visited.
pub open spec fn deps_of(s: StepId) -> Seq<StepId> {
    match s {
        StepId::DownloadOsm | StepId::ElevationTiles => seq![],
        StepId::Basemap | StepId::Routes => seq![StepId::DownloadOsm],
        StepId::TerrainRgb | StepId::Hillshade => seq![StepId::ElevationTiles],
        StepId::ValhallaTiles => seq![StepId::DownloadOsm, StepId::ElevationTiles],
        StepId::ValhallaPackage => seq![StepId::ValhallaTiles],
    }
}

/// Longest chain of dependencies below a step; every dependency sits strictly lower.
pub open spec fn rank(s: StepId) -> nat {
    match s {
        StepId::DownloadOsm | StepId::ElevationTiles => 0,
        StepId::Basemap | StepId::Routes | StepId::TerrainRgb | StepId::Hillshade
        | StepId::ValhallaTiles => 1,
        StepId::ValhallaPackage => 2,
    }
}

pub open spec fn label_text(s: StepId) -> Seq<char> {
    match s {
        StepId::Basemap => "Basemap"@,
        StepId::Routes => "Routes"@,
        StepId::TerrainRgb => "Terrain RGB"@,
        StepId::Hillshade => "Hillshade"@,
        StepId::ValhallaTiles => "Valhalla tiles"@,
        StepId::ValhallaPackage => "Valhalla package"@,
        StepId::DownloadOsm => "Download OSM"@,
        StepId::ElevationTiles => "Elevation tiles"@,
    }
}

pub open spec fn reads_text(s: StepId) -> Seq<char> {
    match s {
        StepId::DownloadOsm => "the network"@,
        StepId::ElevationTiles => "valhalla.json, for the bounds to cover"@,
        StepId::Basemap | StepId::Routes => "the OSM extract, the planetiler jar, Java 21+"@,
        StepId::TerrainRgb | StepId::Hillshade => "sources.json and the elevation tiles"@,
        StepId::ValhallaTiles => "the OSM extract, valhalla.json, the elevation tiles"@,
        StepId::ValhallaPackage => "the Valhalla graph, and a shape or tile list"@,
    }
}

pub open spec fn command_text(s: StepId) -> Seq<char> {
    match s {
        StepId::DownloadOsm => "download"@,
        StepId::ElevationTiles => "elevation"@,
        StepId::Basemap => "basemap"@,
        StepId::Routes => "routes"@,
        StepId::TerrainRgb => "terrain"@,
        StepId::Hillshade => "hillshade"@,
        StepId::ValhallaTiles => "valhalla-tiles"@,
        StepId::ValhallaPackage => "package"@,
    }
}

pub open spec fn summary_text(s: StepId) -> Seq<char> {
    match s {
        StepId::DownloadOsm => "Fetches the area's OSM extract, resolved through Geofabrik's index rather than \
                 a guessed URL - their ids are what the area name has to match (`rhone-alpes`, \
                 `france`). One copy feeds the basemap, the routes and the Valhalla graph, which \
                 is why it is a step of its own rather than planetiler's `--download`."@,
        StepId::ElevationTiles => "Runs `valhalla_build_elevation` with `-d`, so the .hgt tiles land decompressed. \
                 The Valhalla graph bakes elevation in during its own build, so these have to \
                 exist before the tiles are built - and the terrain step reads the same files \
                 afterwards."@,
        StepId::Basemap => "Planetiler over the OSM extract, with the bundled OpenMapTiles fork or a YAML \
                 schema. The top zoom dominates the size: z14 is about 71% of a rhone-alpes \
                 basemap."@,
        StepId::Routes => "The same planetiler run restricted to the route layer - hiking and cycling \
                 relations, which is why it comes out a fraction of the basemap's size. It is \
                 separate because the mobile app ships and updates it separately."@,
        StepId::TerrainRgb => "Terrarium-packed elevation from the sources in sources.json, lowest priority \
                 first, blended over `blur` metres at each source's coverage edge. The map draws \
                 hillshade and 3D terrain from these; there is no contour archive any more."@,
        StepId::Hillshade => "The same renderer packed the mapbox way (0.1 m per step instead of 1 m). It \
                 exists because older archives are named `_hillshade` and are still read."@,
        StepId::ValhallaTiles => "`valhalla_build_tiles` over the OSM extract, using the configured valhalla.json. \
                 Slow, and shared between areas: it is usually built once for a parent area \
                 covering everything you route in, so routes do not stop at a border."@,
        StepId::ValhallaPackage => "Packs the graph tiles covering one area into the .vtiles archive the phone \
                 downloads. The tile list comes from a .poly, from a tilemask, or from an \
                 existing package."@,
    }
}

impl StepId {
    pub fn label(self) -> (r: &'static str)
        ensures
            r@ == label_text(self),
    {
        match self {
            StepId::Basemap => "Basemap",
            StepId::Routes => "Routes",
            StepId::TerrainRgb => "Terrain RGB",
            StepId::Hillshade => "Hillshade",
            StepId::ValhallaTiles => "Valhalla tiles",
            StepId::ValhallaPackage => "Valhalla package",
            StepId::DownloadOsm => "Download OSM",
            StepId::ElevationTiles => "Elevation tiles",
        }
    }

    /// What the step does, in the words someone debugging a build would want.
    pub fn summary(self) -> (r: &'static str)
        ensures
            r@ == summary_text(self),
    {
        match self {
            StepId::DownloadOsm => "Fetches the area's OSM extract, resolved through Geofabrik's index rather than \
                 a guessed URL - their ids are what the area name has to match (`rhone-alpes`, \
                 `france`). One copy feeds the basemap, the routes and the Valhalla graph, which \
                 is why it is a step of its own rather than planetiler's `--download`.",
            StepId::ElevationTiles => "Runs `valhalla_build_elevation` with `-d`, so the .hgt tiles land decompressed. \
                 The Valhalla graph bakes elevation in during its own build, so these have to \
                 exist before the tiles are built - and the terrain step reads the same files \
                 afterwards.",
            StepId::Basemap => "Planetiler over the OSM extract, with the bundled OpenMapTiles fork or a YAML \
                 schema. The top zoom dominates the size: z14 is about 71% of a rhone-alpes \
                 basemap.",
            StepId::Routes => "The same planetiler run restricted to the route layer - hiking and cycling \
                 relations, which is why it comes out a fraction of the basemap's size. It is \
                 separate because the mobile app ships and updates it separately.",
            StepId::TerrainRgb => "Terrarium-packed elevation from the sources in sources.json, lowest priority \
                 first, blended over `blur` metres at each source's coverage edge. The map draws \
                 hillshade and 3D terrain from these; there is no contour archive any more.",
            StepId::Hillshade => "The same renderer packed the mapbox way (0.1 m per step instead of 1 m). It \
                 exists because older archives are named `_hillshade` and are still read.",
            StepId::ValhallaTiles => "`valhalla_build_tiles` over the OSM extract, using the configured valhalla.json. \
                 Slow, and shared between areas: it is usually built once for a parent area \
                 covering everything you route in, so routes do not stop at a border.",
            StepId::ValhallaPackage => "Packs the graph tiles covering one area into the .vtiles archive the phone \
                 downloads. The tile list comes from a .poly, from a tilemask, or from an \
                 existing package.",
        }
    }

    /// What the step needs before it can run, beyond the steps it depends on.
    pub fn reads(self) -> (r: &'static str)
        ensures
            r@ == reads_text(self),
    {
        match self {
            StepId::DownloadOsm => "the network",
            StepId::ElevationTiles => "valhalla.json, for the bounds to cover",
            StepId::Basemap | StepId::Routes => "the OSM extract, the planetiler jar, Java 21+",
            StepId::TerrainRgb | StepId::Hillshade => "sources.json and the elevation tiles",
            StepId::ValhallaTiles => "the OSM extract, valhalla.json, the elevation tiles",
            StepId::ValhallaPackage => "the Valhalla graph, and a shape or tile list",
        }
    }

    /// The subcommand that runs this step.
    pub fn command(self) -> (r: &'static str)
        ensures
            r@ == command_text(self),
    {
        match self {
            StepId::DownloadOsm => "download",
            StepId::ElevationTiles => "elevation",
            StepId::Basemap => "basemap",
            StepId::Routes => "routes",
            StepId::TerrainRgb => "terrain",
            StepId::Hillshade => "hillshade",
            StepId::ValhallaTiles => "valhalla-tiles",
            StepId::ValhallaPackage => "package",
        }
    }

    /// What must have run first.
    pub fn deps(self) -> (r: &'static [StepId])
        ensures
            r@ == deps_of(self),
    {
        match self {
            StepId::DownloadOsm | StepId::ElevationTiles => &[],
            StepId::Basemap | StepId::Routes => &[StepId::DownloadOsm],
            StepId::TerrainRgb | StepId::Hillshade => &[StepId::ElevationTiles],
            StepId::ValhallaTiles => &[StepId::DownloadOsm, StepId::ElevationTiles],
            StepId::ValhallaPackage => &[StepId::ValhallaTiles],
        }
    }

    /// Whether the app can run this step itself, rather than it still being a shell script.
    pub fn is_implemented(self) -> (r: bool)
        ensures
            r,
    {
        true
    }

    /// Steps that write into the same planetiler temp tree and therefore must not overlap.
    pub fn is_planetiler(self) -> (r: bool)
        ensures
            r == (self == StepId::Basemap || self == StepId::Routes),
    {
        match self {
            StepId::Basemap | StepId::Routes => true,
            _ => false,
        }
    }
}

} // verus!

verus! {

/// Whether `b` has to be built for `a`: `a` itself, or a dependency of a dependency, and so on.
pub open spec fn needs(a: StepId, b: StepId) -> bool {
    a == b || match a {
        StepId::DownloadOsm | StepId::ElevationTiles => false,
        StepId::Basemap | StepId::Routes => b == StepId::DownloadOsm,
        StepId::TerrainRgb | StepId::Hillshade => b == StepId::ElevationTiles,
        StepId::ValhallaTiles => b == StepId::DownloadOsm || b == StepId::ElevationTiles,
        StepId::ValhallaPackage => b == StepId::ValhallaTiles || b == StepId::DownloadOsm || b
            == StepId::ElevationTiles,
    }
}

/// `needs` is exactly the reflexive, transitive closure of the dependency edges.
pub proof fn lemma_needs_is_closure(a: StepId, b: StepId)
    ensures
        needs(a, b) <==> (a == b || exists|k: int|
            0 <= k < deps_of(a).len() && #[trigger] needs(deps_of(a)[k], b)),
{
    match a {
        StepId::ValhallaTiles => {
            if needs(a, b) && a != b {
                if b == StepId::DownloadOsm {
                    assert(needs(deps_of(a)[0], b));
                } else {
                    assert(needs(deps_of(a)[1], b));
                }
            }
        },
        StepId::ValhallaPackage => {
            if needs(a, b) && a != b {
                assert(needs(deps_of(a)[0], b));
            }
        },
        StepId::Basemap | StepId::Routes | StepId::TerrainRgb | StepId::Hillshade => {
            if needs(a, b) && a != b {
                assert(needs(deps_of(a)[0], b));
            }
        },
        _ => {},
    }
}

pub proof fn lemma_dep_ranks(a: StepId)
    ensures
        forall|k: int| 0 <= k < deps_of(a).len() ==> rank(#[trigger] deps_of(a)[k]) < rank(a),
        forall|k: int, b: StepId|
            0 <= k < deps_of(a).len() && #[trigger] needs(deps_of(a)[k], b) ==> needs(a, b),
        deps_of(a).len() <= 2,
{
}

proof fn lemma_needs_rank(a: StepId, b: StepId)
    requires
        needs(a, b),
    ensures
        rank(b) <= rank(a),
        rank(b) == rank(a) ==> a == b,
{
}

/// Each step listed after every dependency it has.
pub open spec fn deps_first(o: Seq<StepId>) -> bool {
    forall|i: int, k: int|
        0 <= i < o.len() && 0 <= k < deps_of(o[i]).len() ==> #[trigger] o.take(i).contains(
            #[trigger] deps_of(o[i])[k],
        )
}

pub open spec fn well_ordered(o: Seq<StepId>) -> bool {
    o.no_duplicates() && deps_first(o)
}

/// Depth-first placement of `step` after whatever it depends on, unless already placed.
pub open spec fn visit(step: StepId, ordered: Seq<StepId>) -> Seq<StepId>
    decreases rank(step), 3nat,
{
    if ordered.contains(step) {
        ordered
    } else {
        visit_deps(step, deps_of(step).len() as int, ordered).push(step)
    }
}

/// The first `i` dependencies of `parent`, each placed in turn.
pub open spec fn visit_deps(parent: StepId, i: int, ordered: Seq<StepId>) -> Seq<StepId>
    decreases rank(parent), i,
{
    if i <= 0 || i > deps_of(parent).len() {
        ordered
    } else {
        proof {
            lemma_dep_ranks(parent);
        }
        visit(deps_of(parent)[i - 1], visit_deps(parent, i - 1, ordered))
    }
}

/// The plan for a selection: each requested step placed in turn, in the order requested.
pub open spec fn plan_of(requested: Seq<StepId>) -> Seq<StepId>
    decreases requested.len(),
{
    if requested.len() == 0 {
        Seq::empty()
    } else {
        visit(requested.last(), plan_of(requested.drop_last()))
    }
}

proof fn lemma_visit(step: StepId, o: Seq<StepId>)
    requires
        well_ordered(o),
    ensures
        well_ordered(visit(step, o)),
        visit(step, o).contains(step),
        visit(step, o).len() >= o.len(),
        visit(step, o).take(o.len() as int) == o,
        forall|t: StepId| #[trigger] visit(step, o).contains(t) ==> o.contains(t) || needs(step, t),
    decreases rank(step), 3nat,
{
    if !o.contains(step) {
        let n = deps_of(step).len() as int;
        lemma_dep_ranks(step);
        lemma_visit_deps(step, n, o);
        let o2 = visit_deps(step, n, o);
        let r = o2.push(step);
        assert(r.take(o2.len() as int) =~= o2);
        assert(!o2.contains(step)) by {
            if o2.contains(step) {
                let k = choose|k: int| 0 <= k < n && needs(deps_of(step)[k], step);
                lemma_needs_rank(deps_of(step)[k], step);
            }
        }
        assert(r.take(o.len() as int) =~= o2.take(o.len() as int));
        assert forall|i: int, k: int|
            0 <= i < r.len() && 0 <= k < deps_of(r[i]).len() implies #[trigger] r.take(i).contains(
            #[trigger] deps_of(r[i])[k],
        ) by {
            if i < o2.len() {
                assert(r.take(i) =~= o2.take(i));
                assert(o2[i] == r[i]);
            } else {
                assert(r.take(i) =~= o2);
                assert(o2.contains(deps_of(step)[k]));
            }
        }
        assert forall|t: StepId| #[trigger] r.contains(t) implies o.contains(t) || needs(step, t) by {
            if t != step {
                let j = choose|j: int| 0 <= j < r.len() && r[j] == t;
                assert(o2[j] == t);
                assert(o2.contains(t));
            }
        }
        assert(r[o2.len() as int] == step);
    }
}

proof fn lemma_visit_deps(parent: StepId, i: int, o: Seq<StepId>)
    requires
        well_ordered(o),
        0 <= i <= deps_of(parent).len(),
    ensures
        well_ordered(visit_deps(parent, i, o)),
        visit_deps(parent, i, o).len() >= o.len(),
        visit_deps(parent, i, o).take(o.len() as int) == o,
        forall|k: int| 0 <= k < i ==> #[trigger] visit_deps(parent, i, o).contains(deps_of(parent)[k]),
        forall|t: StepId| #[trigger] visit_deps(parent, i, o).contains(t) ==> o.contains(t) || exists|k: int|
            0 <= k < i && #[trigger] needs(deps_of(parent)[k], t),
    decreases rank(parent), i,
{
    if i > 0 {
        lemma_dep_ranks(parent);
        lemma_visit_deps(parent, i - 1, o);
        let o1 = visit_deps(parent, i - 1, o);
        let d = deps_of(parent)[i - 1];
        lemma_visit(d, o1);
        let o2 = visit(d, o1);
        assert(o2.take(o.len() as int) =~= o1.take(o.len() as int)) by {
            assert(o2.take(o1.len() as int).take(o.len() as int) =~= o2.take(o.len() as int));
        }
        assert forall|k: int| 0 <= k < i implies #[trigger] o2.contains(deps_of(parent)[k]) by {
            if k < i - 1 {
                let x = deps_of(parent)[k];
                assert(o1.contains(x));
                let j = choose|j: int| 0 <= j < o1.len() && o1[j] == x;
                assert(o2.take(o1.len() as int)[j] == x);
                assert(o2[j] == x);
            }
        }
        assert forall|t: StepId| #[trigger] o2.contains(t) implies o.contains(t) || exists|k: int|
            0 <= k < i && #[trigger] needs(deps_of(parent)[k], t) by {
            if !o1.contains(t) {
                assert(needs(deps_of(parent)[i - 1], t));
            }
        }
    }
}

/// The plan keeps a step's dependencies ahead of it and holds no step twice.
pub proof fn lemma_plan_well_ordered(requested: Seq<StepId>)
    ensures
        well_ordered(plan_of(requested)),
        forall|j: int| 0 <= j < requested.len() ==> plan_of(requested).contains(#[trigger] requested[j]),
        forall|t: StepId| #[trigger] plan_of(requested).contains(t) ==> exists|j: int|
            0 <= j < requested.len() && needs(#[trigger] requested[j], t),
    decreases requested.len(),
{
    if requested.len() > 0 {
        let rest = requested.drop_last();
        let s = requested.last();
        lemma_plan_well_ordered(rest);
        let o = plan_of(rest);
        lemma_visit(s, o);
        let p = visit(s, o);
        assert forall|j: int| 0 <= j < requested.len() implies p.contains(#[trigger] requested[j]) by {
            if j < requested.len() - 1 {
                let x = requested[j];
                assert(rest[j] == x);
                assert(o.contains(x));
                let q = choose|q: int| 0 <= q < o.len() && o[q] == x;
                assert(p.take(o.len() as int)[q] == x);
                assert(p[q] == x);
            }
        }
        assert forall|t: StepId| #[trigger] p.contains(t) implies exists|j: int|
            0 <= j < requested.len() && needs(#[trigger] requested[j], t) by {
            if o.contains(t) {
                let j = choose|j: int| 0 <= j < rest.len() && needs(#[trigger] rest[j], t);
                assert(requested[j] == rest[j]);
            } else {
                assert(needs(requested[requested.len() - 1], t));
            }
        }
    }
}

/// Law: a plan lists each step after everything it depends on.
pub proof fn plan_orders_dependencies_first(requested: Seq<StepId>)
    ensures
        deps_first(plan_of(requested)),
{
    lemma_plan_well_ordered(requested);
}

/// Law: a plan never holds a step twice, however the selection overlaps.
pub proof fn plan_has_no_duplicates(requested: Seq<StepId>)
    ensures
        plan_of(requested).no_duplicates(),
{
    lemma_plan_well_ordered(requested);
}

/// Law: everything selected is in the plan, and so is everything it needs.
pub proof fn plan_covers_the_selection(requested: Seq<StepId>)
    ensures
        forall|j: int, t: StepId|
            0 <= j < requested.len() && #[trigger] needs(requested[j], t) ==> plan_of(
                requested,
            ).contains(t),
{
    lemma_plan_well_ordered(requested);
    let p = plan_of(requested);
    assert forall|j: int, t: StepId|
        0 <= j < requested.len() && #[trigger] needs(requested[j], t) implies p.contains(t) by {
        assert(p.contains(requested[j]));
        lemma_closed_under_needs(p, requested[j], t);
    }
}

/// In a list that keeps dependencies first, whatever a listed step needs is listed too.
proof fn lemma_closed_under_needs(p: Seq<StepId>, s: StepId, t: StepId)
    requires
        deps_first(p),
        p.contains(s),
        needs(s, t),
    ensures
        p.contains(t),
    decreases rank(s),
{
    if s != t {
        lemma_needs_is_closure(s, t);
        lemma_dep_ranks(s);
        let k = choose|k: int| 0 <= k < deps_of(s).len() && #[trigger] needs(deps_of(s)[k], t);
        let i = choose|i: int| 0 <= i < p.len() && p[i] == s;
        assert(p.take(i).contains(deps_of(p[i])[k]));
        let j = choose|j: int| 0 <= j < i && p.take(i)[j] == deps_of(s)[k];
        assert(p[j] == deps_of(s)[k]);
        assert(p.contains(deps_of(s)[k]));
        lemma_closed_under_needs(p, deps_of(s)[k], t);
    }
}

/// Law: a plan holds nothing that the selection does not need.
pub proof fn plan_holds_only_what_is_needed(requested: Seq<StepId>)
    ensures
        forall|t: StepId| #[trigger] plan_of(requested).contains(t) ==> exists|j: int|
            0 <= j < requested.len() && needs(#[trigger] requested[j], t),
{
    lemma_plan_well_ordered(requested);
}

fn contains_step(v: &Vec<StepId>, s: StepId) -> (b: bool)
    ensures
        b == v@.contains(s),
{
    let mut i: usize = 0;
    while i < v.len()
        invariant
            i <= v@.len(),
            forall|j: int| 0 <= j < i ==> v@[j] != s,
        decreases v@.len() - i,
    {
        if v[i] == s {
            return true;
        }
        i = i + 1;
    }
    false
}

fn visit_exec(step: StepId, ordered: &mut Vec<StepId>, visiting: &mut Vec<StepId>)
    requires
        forall|j: int| 0 <= j < old(visiting)@.len() ==> rank(old(visiting)@[j]) > rank(step),
    ensures
        final(ordered)@ == visit(step, old(ordered)@),
        final(visiting)@ == old(visiting)@,
    decreases rank(step),
{
    if contains_step(ordered, step) {
        return;
    }
    if contains_step(visiting, step) {
        // only a cycle could get here, and the graph has none
        return;
    }
    visiting.push(step);
    let deps = step.deps();
    let ghost start = ordered@;
    let ghost base = visiting@;
    proof {
        lemma_dep_ranks(step);
    }
    let mut i: usize = 0;
    while i < deps.len()
        invariant
            i <= deps@.len(),
            deps@ == deps_of(step),
            ordered@ == visit_deps(step, i as int, start),
            visiting@ == base,
            base == old(visiting)@.push(step),
            forall|j: int| 0 <= j < old(visiting)@.len() ==> rank(old(visiting)@[j]) > rank(step),
            forall|k: int| 0 <= k < deps_of(step).len() ==> rank(#[trigger] deps_of(step)[k]) < rank(step),
        decreases deps@.len() - i,
    {
        let d = deps[i];
        assert forall|j: int| 0 <= j < visiting@.len() implies rank(visiting@[j]) > rank(d) by {
            assert(rank(d) < rank(step));
        }
        visit_exec(d, ordered, visiting);
        i = i + 1;
    }
    visiting.pop();
    assert(visiting@ =~= old(visiting)@);
    ordered.push(step);
}

/// Expand a selection into a runnable, dependency-ordered plan.
///
/// Dependencies are pulled in automatically, duplicates collapse, and the result is a
/// topological order. Selecting only `ValhallaPackage` therefore still builds the tiles it
/// needs rather than failing halfway.
pub fn plan(requested: &[StepId]) -> (p: Vec<StepId>)
    ensures
        p@ == plan_of(requested@),
{
    let mut ordered: Vec<StepId> = Vec::new();
    let mut visiting: Vec<StepId> = Vec::new();
    let mut i: usize = 0;
    while i < requested.len()
        invariant
            i <= requested@.len(),
            ordered@ == plan_of(requested@.take(i as int)),
            visiting@ == Seq::<StepId>::empty(),
        decreases requested@.len() - i,
    {
        assert(requested@.take(i + 1).drop_last() =~= requested@.take(i as int));
        visit_exec(requested[i], &mut ordered, &mut visiting);
        i = i + 1;
    }
    assert(requested@.take(requested@.len() as int) =~= requested@);
    ordered
}

/// Emitted by every step, native or subprocess, so the UI has one shape to render.
#[derive(Debug, Clone)]
pub enum StepEvent {
    Started { step: StepId, area: String },
    Phase { step: StepId, name: String },
    Progress { step: StepId, label: String, percent: u8 },
    Log { step: StepId, line: String },
    Finished { step: StepId, ok: bool, elapsed: Option<String>, outputs: Vec<String> },
    /// Nothing ran: this step was already built. `reason` is shown as-is.
    Skipped { step: StepId, reason: String },
}

} // verus!

