//! Where an area's OSM extract and boundary polygon live, where they are published, and what a
//! download decides: which extract in Geofabrik's index an area names, how far a download has
//! got, and whether a step clips to the area's own boundary.
//!
//! The extract is fetched once and reused: the same `.osm.pbf` feeds the basemap, the routes
//! and the Valhalla graph. Planetiler spells its downloads with underscores, so the file name
//! has to match its spelling or it downloads a copy of its own.
use vstd::prelude::*;
use crate::options::{value_for, value_of, OptionValue};
use crate::text::{ascii_lower, ascii_lower_exec, chars_of, ends_with_chars, join_chars, path_join, has_suffix, push_all, slice_of, string_of};

verus! {

/// Every `-` of `s` turned into `_`.
pub open spec fn underscored(s: Seq<char>) -> Seq<char> {
    s.map_values(|c: char| if c == '-' { '_' } else { c })
}

pub open spec fn pbf_ext() -> Seq<char> {
    seq!['.', 'o', 's', 'm', '.', 'p', 'b', 'f']
}

pub open spec fn poly_ext() -> Seq<char> {
    seq!['.', 'p', 'o', 'l', 'y']
}

/// Where an area's OSM extract is kept: its name with `-` as `_`, as planetiler's own
/// downloads name it, under the data directory.
pub open spec fn extract_file(data_dir: Seq<char>, area: Seq<char>) -> Seq<char> {
    path_join(data_dir, underscored(area) + pbf_ext())
}

pub open spec fn latest_pbf() -> Seq<char> {
    seq!['-', 'l', 'a', 't', 'e', 's', 't', '.', 'o', 's', 'm', '.', 'p', 'b', 'f']
}

/// Where an area's extract is written: `<data_dir>/<area with _ for ->.osm.pbf`.
pub fn extract_path(data_dir: &str, area: &str) -> (p: String)
    ensures
        p@ == path_join(data_dir@, underscored(area@) + pbf_ext()),
{
    let a = chars_of(area);
    let mut name: Vec<char> = Vec::new();
    let mut i: usize = 0;
    while i < a.len()
        invariant
            i <= a@.len(),
            name@ == underscored(a@.take(i as int)),
        decreases a@.len() - i,
    {
        let c = a[i];
        name.push(if c == '-' { '_' } else { c });
        assert(underscored(a@.take(i + 1)) =~= underscored(a@.take(i as int)).push(
            if c == '-' { '_' } else { c },
        ));
        i = i + 1;
    }
    assert(a@.take(a@.len() as int) =~= a@);
    push_all(&mut name, &['.', 'o', 's', 'm', '.', 'p', 'b', 'f']);
    assert(name@ =~= underscored(area@) + pbf_ext());
    join_chars(data_dir, &name)
}

/// Where an area's boundary polygon lives once fetched. It keeps the area's own spelling.
pub fn poly_path(data_dir: &str, area: &str) -> (p: String)
    ensures
        p@ == path_join(data_dir@, area@ + poly_ext()),
{
    let mut name = chars_of(area);
    push_all(&mut name, &['.', 'p', 'o', 'l', 'y']);
    assert(name@ =~= area@ + poly_ext());
    join_chars(data_dir, &name)
}

/// Geofabrik publishes the boundary beside the extract without listing it in its index: the
/// pbf is `.../rhone-alpes-latest.osm.pbf` and the polygon `.../rhone-alpes.poly`. Any other
/// name yields `None` rather than a URL that would not exist.
pub fn poly_url_from_pbf(pbf: &str) -> (r: Option<String>)
    ensures
        r matches Some(u) ==> has_suffix(pbf@, latest_pbf()) && u@ == pbf@.subrange(
            0,
            pbf@.len() - latest_pbf().len(),
        ) + poly_ext(),
        r is None ==> !has_suffix(pbf@, latest_pbf()),
{
    let v = chars_of(pbf);
    let suffix = ['-', 'l', 'a', 't', 'e', 's', 't', '.', 'o', 's', 'm', '.', 'p', 'b', 'f'];
    proof {
        assert(suffix@ =~= latest_pbf());
    }
    if !ends_with_chars(&v, &suffix) {
        return None;
    }
    let mut base = slice_of(&v, 0, v.len() - 15);
    push_all(&mut base, &['.', 'p', 'o', 'l', 'y']);
    assert(base@ =~= pbf@.subrange(0, pbf@.len() - latest_pbf().len()) + poly_ext());
    Some(string_of(base.as_slice()))
}


/// The entries not under `key`, in order.
pub open spec fn without_key(values: Seq<(String, OptionValue)>, key: Seq<char>) -> Seq<(String, OptionValue)>
    decreases values.len(),
{
    if values.len() == 0 {
        Seq::empty()
    } else {
        let rest = without_key(values.drop_last(), key);
        if values.last().0@ == key {
            rest
        } else {
            rest.push(values.last())
        }
    }
}

/// Whether the `area_poly` switch is on: set, and to `true`.
pub open spec fn area_poly_on(values: Seq<(String, OptionValue)>) -> bool {
    value_for(values, "area_poly"@) == Some(OptionValue::Bool(true))
}

proof fn lemma_without_key_misses(values: Seq<(String, OptionValue)>, key: Seq<char>, other: Seq<char>)
    requires
        other != key,
    ensures
        value_for(without_key(values, key), other) == value_for(values, other),
    decreases values.len(),
{
    if values.len() > 0 {
        lemma_without_key_misses(values.drop_first(), key, other);
        lemma_without_key_front(values, key);
        if values[0].0@ != key {
            let w = without_key(values.drop_first(), key);
            assert((seq![values[0]] + w)[0] == values[0]);
            assert((seq![values[0]] + w).drop_first() =~= w);
        }
    }
}

proof fn lemma_without_key_front(values: Seq<(String, OptionValue)>, key: Seq<char>)
    requires
        values.len() > 0,
    ensures
        without_key(values, key) == if values[0].0@ == key {
            without_key(values.drop_first(), key)
        } else {
            seq![values[0]] + without_key(values.drop_first(), key)
        },
    decreases values.len(),
{
    if values.len() == 1 {
        assert(values.drop_first() =~= Seq::<(String, OptionValue)>::empty());
        assert(values.drop_last() =~= Seq::<(String, OptionValue)>::empty());
    } else {
        lemma_without_key_front(values.drop_last(), key);
        assert(values.drop_last().drop_first() =~= values.drop_first().drop_last());
        assert(values.drop_last()[0] == values[0]);
        assert(values.drop_first().last() == values.last());
        if values[0].0@ == key {
        } else {
            assert(seq![values[0]] + without_key(values.drop_first(), key) =~= (if values.last().0@ == key {
                seq![values[0]] + without_key(values.drop_first().drop_last(), key)
            } else {
                (seq![values[0]] + without_key(values.drop_first().drop_last(), key)).push(values.last())
            }));
        }
    }
}

/// Take cairn's own `area_poly` switch out of a step's values, and say whether the area's
/// boundary has to be fetched and set under `clip_key`: only when the switch is on and no shape
/// is given there already. An explicit shape always wins; the switch only fills a gap, and it
/// is removed either way, since it means nothing downstream.
pub fn take_area_poly(values: Vec<(String, OptionValue)>, clip_key: &str) -> (r: (Vec<(String, OptionValue)>, bool))
    ensures
        r.0@ == without_key(values@, "area_poly"@),
        r.1 == (area_poly_on(values@) && value_for(without_key(values@, "area_poly"@), clip_key@) is None),
{
    proof {
        reveal_strlit("area_poly");
    }
    let on = match value_of(values.as_slice(), "area_poly") {
        Some(OptionValue::Bool(b)) => *b,
        _ => false,
    };
    let ghost all = values@;
    let mut rest = values;
    let len0 = rest.len();
    let mut out: Vec<(String, OptionValue)> = Vec::new();
    let mut n: usize = 0;
    while rest.len() > 0
        invariant
            n + rest@.len() == all.len(),
            all.len() == len0,
            rest@ == all.skip(n as int),
            out@ == without_key(all.take(n as int), "area_poly"@),
        decreases rest@.len(),
    {
        let m = rest.remove(0);
        proof {
            assert(m == all[n as int]);
            assert(all.take(n + 1).drop_last() =~= all.take(n as int));
            assert(rest@ =~= all.skip(n + 1));
        }
        if !crate::text::same_text(m.0.as_str(), "area_poly") {
            out.push(m);
        }
        n = n + 1;
    }
    assert(all.take(n as int) =~= all);
    let clipped = match value_of(out.as_slice(), clip_key) {
        Some(_) => true,
        None => false,
    };
    (out, on && !clipped)
}

/// The step's values with the fetched boundary set as its clip shape.
pub fn with_clip(values: Vec<(String, OptionValue)>, clip_key: &str, poly: &str) -> (out: Vec<(String, OptionValue)>)
    ensures
        out@.len() == values@.len() + 1,
        out@.drop_last() == values@,
        out@.last().0@ == clip_key@,
        out@.last().1 matches OptionValue::Text(t) && t@ == poly@,
{
    let mut out = values;
    out.push((String::from_str(clip_key), OptionValue::Text(String::from_str(poly))));
    out
}


/// An explicit shape always wins: when a clip shape is already set it survives the switch's
/// removal, so `take_area_poly` never asks for the area's boundary.
pub proof fn explicit_shape_wins(values: Seq<(String, OptionValue)>, clip_key: Seq<char>)
    requires
        clip_key != "area_poly"@,
        value_for(values, clip_key) is Some,
    ensures
        value_for(without_key(values, "area_poly"@), clip_key) == value_for(values, clip_key),
        !(area_poly_on(values) && value_for(without_key(values, "area_poly"@), clip_key) is None),
{
    lemma_without_key_misses(values, "area_poly"@, clip_key);
}


/// What `str::to_lowercase` makes of a text: Unicode's lowercase mapping.
pub uninterp spec fn unicode_lowercase(s: Seq<char>) -> Seq<char>;

/// Wraps `str::to_lowercase`. The result depends on the text alone; Unicode's case tables are
/// not written out here.
#[verifier::external_body]
fn to_lowercase_of(s: &str) -> (r: String)
    ensures
        r@ == unicode_lowercase(s@),
{
    s.to_lowercase()
}

/// `str::eq_ignore_ascii_case`: equal once ASCII letters are folded to lowercase. Other
/// characters must match exactly.
pub open spec fn ascii_fold_eq(a: Seq<char>, b: Seq<char>) -> bool {
    a.len() == b.len() && forall|i: int| 0 <= i < a.len() ==> ascii_lower(#[trigger] a[i]) == ascii_lower(b[i])
}

fn eq_ignore_ascii(a: &str, b: &str) -> (r: bool)
    ensures
        r == ascii_fold_eq(a@, b@),
{
    let x = chars_of(a);
    let y = chars_of(b);
    if x.len() != y.len() {
        return false;
    }
    let mut i: usize = 0;
    while i < x.len()
        invariant
            i <= x@.len(),
            x@ == a@,
            y@ == b@,
            x@.len() == y@.len(),
            forall|k: int| 0 <= k < i ==> ascii_lower(#[trigger] x@[k]) == ascii_lower(y@[k]),
        decreases x@.len() - i,
    {
        if ascii_lower_exec(x[i]) != ascii_lower_exec(y[i]) {
            return false;
        }
        i = i + 1;
    }
    true
}

/// One extract listed in Geofabrik's index: its id, its display name, and the URL of its
/// `.osm.pbf` when it has one.
#[derive(Debug, Clone, PartialEq)]
pub struct IndexEntry {
    pub id: String,
    pub name: String,
    pub pbf: Option<String>,
}

/// The first extract whose id is `wanted`, ignoring ASCII case.
pub open spec fn first_id_match(es: Seq<IndexEntry>, wanted: Seq<char>) -> Option<Seq<char>>
    decreases es.len(),
{
    if es.len() == 0 {
        None
    } else if es[0].pbf is Some && ascii_fold_eq(es[0].id@, wanted) {
        Some(es[0].pbf.unwrap()@)
    } else {
        first_id_match(es.drop_first(), wanted)
    }
}

/// The first extract whose lowercased name is `wanted`.
pub open spec fn first_name_match(es: Seq<IndexEntry>, wanted: Seq<char>) -> Option<Seq<char>>
    decreases es.len(),
{
    if es.len() == 0 {
        None
    } else if es[0].pbf is Some && unicode_lowercase(es[0].name@) == wanted {
        Some(es[0].pbf.unwrap()@)
    } else {
        first_name_match(es.drop_first(), wanted)
    }
}

/// The extract URL for an area: an id match, or failing that a name match, but a name never
/// wins over an id. Entries without a `.osm.pbf` are passed over.
pub open spec fn extract_url_for(es: Seq<IndexEntry>, area: Seq<char>) -> Option<Seq<char>> {
    match first_id_match(es, unicode_lowercase(area)) {
        Some(u) => Some(u),
        None => first_name_match(es, unicode_lowercase(area)),
    }
}

/// What is said when the index has no such area.
pub open spec fn no_extract_text(area: Seq<char>) -> Seq<char> {
    "no Geofabrik extract called `"@ + area + "` - ids look like `rhone-alpes` or `france`"@
}

/// Find the extract URL for an area id in Geofabrik's index. The path of an area is not
/// derivable from its name (`rhone-alpes` lives under `europe/france/`), hence the index.
pub fn extract_url(entries: &[IndexEntry], area: &str) -> (r: Result<String, String>)
    ensures
        match extract_url_for(entries@, area@) {
            Some(u) => (r matches Ok(v) && v@ == u),
            None => (r matches Err(m) && m@ == no_extract_text(area@)),
        },
{
    let wanted = to_lowercase_of(area);
    let mut i: usize = 0;
    assert(entries@.skip(0) =~= entries@);
    while i < entries.len()
        invariant
            i <= entries@.len(),
            wanted@ == unicode_lowercase(area@),
            first_id_match(entries@, wanted@) == first_id_match(entries@.skip(i as int), wanted@),
        decreases entries@.len() - i,
    {
        assert(entries@.skip(i as int).drop_first() =~= entries@.skip(i + 1));
        assert(entries@.skip(i as int)[0] == entries@[i as int]);
        if let Some(pbf) = &entries[i].pbf {
            if eq_ignore_ascii(entries[i].id.as_str(), wanted.as_str()) {
                return Ok(pbf.clone());
            }
        }
        i = i + 1;
    }
    assert(entries@.skip(i as int).len() == 0);
    let mut j: usize = 0;
    while j < entries.len()
        invariant
            j <= entries@.len(),
            wanted@ == unicode_lowercase(area@),
            first_id_match(entries@, wanted@) is None,
            first_name_match(entries@, wanted@) == first_name_match(entries@.skip(j as int), wanted@),
        decreases entries@.len() - j,
    {
        assert(entries@.skip(j as int).drop_first() =~= entries@.skip(j + 1));
        assert(entries@.skip(j as int)[0] == entries@[j as int]);
        if let Some(pbf) = &entries[j].pbf {
            let lowered = to_lowercase_of(entries[j].name.as_str());
            if crate::text::same_text(lowered.as_str(), wanted.as_str()) {
                return Ok(pbf.clone());
            }
        }
        j = j + 1;
    }
    assert(entries@.skip(j as int).len() == 0);
    let a = crate::text::concat_str("no Geofabrik extract called `", area);
    Err(crate::text::concat_str(a.as_str(), "` - ids look like `rhone-alpes` or `france`"))
}


/// How far a download is, in whole percent: none while the size is unknown (or zero), and never
/// past 100 when the server sends more than it announced.
pub open spec fn percent_done(done: u64, total: Option<u64>) -> u8 {
    match total {
        Some(t) => if t > 0 {
            if done * 100 / (t as int) > 100 { 100u8 } else { (done * 100 / (t as int)) as u8 }
        } else {
            0u8
        },
        None => 0u8,
    }
}

/// `percent_done` for `done` bytes of `total`.
pub fn download_percent(done: u64, total: Option<u64>) -> (p: u8)
    requires
        done * 100 <= u64::MAX,
    ensures
        p == percent_done(done, total),
{
    match total {
        Some(t) => {
            if t > 0 {
                let q = done * 100 / t;
                if q > 100 {
                    100
                } else {
                    q as u8
                }
            } else {
                0
            }
        },
        None => 0,
    }
}

} // verus!
