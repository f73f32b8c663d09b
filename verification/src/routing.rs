//! Routing against a built Valhalla graph.
//!
//! The router itself is Valhalla's C++ actor reached through a small C shim, linked only into
//! builds made against a Valhalla checkout. This library is not one of them. What it does hold
//! is the configuration the actor is opened with: the pipeline's own `valhalla.json`, pointed at
//! the tile directory to route on.
use vstd::prelude::*;
use crate::text::same_text;

verus! {

/// Whether this build can route: it is not linked against Valhalla, so it cannot.
pub fn available() -> (r: bool)
    ensures
        !r,
{
    false
}

/// A JSON value, as a Valhalla configuration holds it. A number is kept as JSON renders it; an
/// object's members in the order they were read.
#[derive(Debug, PartialEq)]
pub enum Json {
    Null,
    Bool(bool),
    Number(String),
    Text(String),
    Array(Vec<Json>),
    Object(Vec<(String, Json)>),
}

/// Why a template cannot be repointed.
#[derive(Debug, Clone, Copy, PartialEq, Eq, Structural)]
pub enum ConfigError {
    /// The template has no `mjolnir` object to hold the tile directory.
    NoMjolnir,
}

impl ConfigError {
    /// The error as a sentence.
    pub fn message(&self) -> (m: &'static str)
        ensures
            m@ == "config template has no mjolnir section"@,
    {
        "config template has no mjolnir section"
    }
}

/// The position of the first member called `name`.
pub open spec fn member_at(ms: Seq<(String, Json)>, name: Seq<char>) -> Option<int>
    decreases ms.len(),
{
    if ms.len() == 0 {
        None
    } else if ms[0].0@ == name {
        Some(0)
    } else {
        match member_at(ms.drop_first(), name) {
            Some(i) => Some(i + 1),
            None => None,
        }
    }
}

proof fn lemma_member_at(ms: Seq<(String, Json)>, name: Seq<char>)
    ensures
        member_at(ms, name) matches Some(i) ==> 0 <= i < ms.len() && ms[i].0@ == name,
    decreases ms.len(),
{
    if ms.len() > 0 {
        lemma_member_at(ms.drop_first(), name);
    }
}

/// The keys that say where tiles come from. A leftover extract would win over the directory
/// being asked for, so all three go before the new `tile_dir` is set.
pub open spec fn is_location_key(k: Seq<char>) -> bool {
    k == "tile_dir"@ || k == "tile_extract"@ || k == "traffic_extract"@
}

/// The members that are not location keys, in order.
pub open spec fn without_location(ms: Seq<(String, Json)>) -> Seq<(String, Json)>
    decreases ms.len(),
{
    if ms.len() == 0 {
        Seq::empty()
    } else {
        let rest = without_location(ms.drop_last());
        if is_location_key(ms.last().0@) {
            rest
        } else {
            rest.push(ms.last())
        }
    }
}

/// `out` is the `mjolnir` members `mj` pointed at `tile_dir`: every other member kept in order,
/// then `tile_dir` set to the directory.
pub open spec fn repointed(mj: Seq<(String, Json)>, out: Seq<(String, Json)>, tile_dir: Seq<char>) -> bool {
    &&& out.len() == without_location(mj).len() + 1
    &&& out.drop_last() == without_location(mj)
    &&& out.last().0@ == "tile_dir"@
    &&& out.last().1 matches Json::Text(t) && t@ == tile_dir
}

fn is_location(k: &str) -> (r: bool)
    ensures
        r == is_location_key(k@),
{
    same_text(k, "tile_dir") || same_text(k, "tile_extract") || same_text(k, "traffic_extract")
}

fn repoint(mj: Vec<(String, Json)>, tile_dir: &str) -> (out: Vec<(String, Json)>)
    ensures
        repointed(mj@, out@, tile_dir@),
{
    let ghost all = mj@;
    let mut rest = mj;
    let len0 = rest.len();
    assert(all.len() == len0);
    let mut out: Vec<(String, Json)> = Vec::new();
    let mut n: usize = 0;
    while rest.len() > 0
        invariant
            n + rest@.len() == all.len(),
            all.len() <= usize::MAX,
            rest@ == all.skip(n as int),
            out@ == without_location(all.take(n as int)),
        decreases rest@.len(),
    {
        let m = rest.remove(0);
        proof {
            assert(m == all[n as int]);
            assert(all.take(n + 1).drop_last() =~= all.take(n as int));
            assert(rest@ =~= all.skip(n + 1));
        }
        if !is_location(m.0.as_str()) {
            out.push(m);
        }
        n = n + 1;
    }
    assert(all.take(n as int) =~= all);
    let ghost kept = out@;
    out.push((String::from_str("tile_dir"), Json::Text(String::from_str(tile_dir))));
    proof {
        reveal_strlit("tile_dir");
        assert(out@.drop_last() =~= kept);
    }
    out
}

fn find_member(ms: &Vec<(String, Json)>, name: &str) -> (r: Option<usize>)
    ensures
        match r {
            Some(k) => member_at(ms@, name@) == Some(k as int),
            None => member_at(ms@, name@) is None,
        },
{
    let mut i: usize = 0;
    assert(ms@.skip(0) =~= ms@);
    while i < ms.len()
        invariant
            i <= ms@.len(),
            member_at(ms@, name@) == match member_at(ms@.skip(i as int), name@) {
                Some(j) => Some(j + i),
                None => None::<int>,
            },
        decreases ms@.len() - i,
    {
        assert(ms@.skip(i as int).drop_first() =~= ms@.skip(i + 1));
        assert(ms@.skip(i as int)[0] == ms@[i as int]);
        if same_text(ms[i].0.as_str(), name) {
            return Some(i);
        }
        i = i + 1;
    }
    None
}

/// Point a Valhalla configuration at `tile_dir`. The actor validates the whole configuration,
/// not just what a route needs, so rather than build one this takes the pipeline's own
/// `valhalla.json` and changes only where tiles come from: in its `mjolnir` object, `tile_dir`
/// becomes the directory and the extracts go. Everything else is kept as it was.
pub fn config_from_template(template: Json, tile_dir: &str) -> (r: Result<Json, ConfigError>)
    ensures
        match template {
            Json::Object(ms) => match member_at(ms@, "mjolnir"@) {
                Some(i) => match ms@[i].1 {
                    Json::Object(mj) => (r matches Ok(Json::Object(out)) && out@.len() == ms@.len()
                        && (forall|j: int| 0 <= j < ms@.len() && j != i ==> #[trigger] out@[j] == ms@[j])
                        && out@[i].0 == ms@[i].0
                        && (out@[i].1 matches Json::Object(mj2) && repointed(mj@, mj2@, tile_dir@))),
                    _ => r == Err::<Json, ConfigError>(ConfigError::NoMjolnir),
                },
                None => r == Err::<Json, ConfigError>(ConfigError::NoMjolnir),
            },
            _ => r == Err::<Json, ConfigError>(ConfigError::NoMjolnir),
        },
{
    proof {
        reveal_strlit("mjolnir");
    }
    match template {
        Json::Object(ms) => {
            let mut ms = ms;
            let ghost before = ms@;
            proof {
                lemma_member_at(ms@, "mjolnir"@);
            }
            match find_member(&ms, "mjolnir") {
                Some(i) => {
                    let (key, value) = ms.remove(i);
                    assert(key == before[i as int].0 && value == before[i as int].1);
                    match value {
                        Json::Object(mj) => {
                            let mj2 = repoint(mj, tile_dir);
                            let ghost removed = ms@;
                            ms.insert(i, (key, Json::Object(mj2)));
                            assert(ms@ == removed.insert(i as int, (before[i as int].0, Json::Object(mj2))));
                            assert forall|j: int| 0 <= j < before.len() && j != i implies #[trigger] ms@[j] == before[j] by {
                                if j < i {
                                    assert(removed[j] == before[j]);
                                } else {
                                    assert(removed[j - 1] == before[j]);
                                }
                            }
                            Ok(Json::Object(ms))
                        },
                        _ => Err(ConfigError::NoMjolnir),
                    }
                },
                None => Err(ConfigError::NoMjolnir),
            }
        },
        _ => Err(ConfigError::NoMjolnir),
    }
}

} // verus!
