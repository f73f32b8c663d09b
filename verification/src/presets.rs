//! Named option sets, per step.
//!
//! Comparing builds used to mean hand-editing a shell script per variant and remembering which
//! flags produced which file; a preset is that variant, named, saved, and re-runnable.
use vstd::prelude::*;
use crate::options::{OptionValue, ValueModel};
use crate::steps::StepId;
use crate::text::same_text;
use crate::catalog::{lemma_lex_at, lemma_sorted_from_adjacent, strictly_sorted};

verus! {

#[derive(Debug, Clone, PartialEq)]
pub struct Preset {
    pub name: String,
    pub step: StepId,
    pub description: String,
    /// Option values by key, in key order, each key once ([`values_in_order`]).
    pub values: Vec<(String, OptionValue)>,
}

/// Every saved preset. Names are unique per step, not globally: "final" can mean one thing for
/// the basemap and another for routes.
#[derive(Debug, Clone, PartialEq)]
pub struct PresetStore {
    pub presets: Vec<Preset>,
}

/// The preset applied when a run does not name one. `stock` is the opt-out that gives
/// planetiler's own defaults.
pub const DEFAULT_PRESET: &'static str = "measured";

/// Whether `p` is the preset called `name` for `step`.
pub open spec fn is_named(p: Preset, step: StepId, name: Seq<char>) -> bool {
    p.step == step && p.name@ == name
}

/// The presets of one step, in store order.
pub open spec fn of_step(s: Seq<Preset>, step: StepId) -> Seq<Preset>
    decreases s.len(),
{
    if s.len() == 0 {
        s
    } else if s.last().step == step {
        of_step(s.drop_last(), step).push(s.last())
    } else {
        of_step(s.drop_last(), step)
    }
}

/// The store without the preset called `name` for `step`.
pub open spec fn without(s: Seq<Preset>, step: StepId, name: Seq<char>) -> Seq<Preset>
    decreases s.len(),
{
    if s.len() == 0 {
        s
    } else if is_named(s[0], step, name) {
        without(s.drop_first(), step, name)
    } else {
        seq![s[0]] + without(s.drop_first(), step, name)
    }
}

/// Where the preset called `name` for `step` first stands.
pub open spec fn position(s: Seq<Preset>, step: StepId, name: Seq<char>) -> Option<int>
    decreases s.len(),
{
    if s.len() == 0 {
        None
    } else if is_named(s[0], step, name) {
        Some(0)
    } else {
        match position(s.drop_first(), step, name) {
            Some(i) => Some(i + 1),
            None => None,
        }
    }
}

/// The preset called `name` for `step`: the first one, if any.
pub open spec fn lookup(s: Seq<Preset>, step: StepId, name: Seq<char>) -> Option<Preset>
    decreases s.len(),
{
    if s.len() == 0 {
        None
    } else if is_named(s[0], step, name) {
        Some(s[0])
    } else {
        lookup(s.drop_first(), step, name)
    }
}

/// The store after `p` is upserted: it replaces the preset of its step and name where there is
/// one, and is added at the end otherwise.
pub open spec fn upserted(s: Seq<Preset>, p: Preset) -> Seq<Preset> {
    match position(s, p.step, p.name@) {
        Some(i) => s.update(i, p),
        None => s.push(p),
    }
}

proof fn lemma_first(s: Seq<Preset>, step: StepId, name: Seq<char>, i: int)
    requires
        0 <= i < s.len(),
        is_named(s[i], step, name),
        forall|j: int| 0 <= j < i ==> !is_named(#[trigger] s[j], step, name),
    ensures
        position(s, step, name) == Some(i),
        lookup(s, step, name) == Some(s[i]),
    decreases i,
{
    if i > 0 {
        assert(!is_named(s[0], step, name));
        assert forall|j: int| 0 <= j < i - 1 implies !is_named(#[trigger] s.drop_first()[j], step, name) by {
            assert(s.drop_first()[j] == s[j + 1]);
        }
        lemma_first(s.drop_first(), step, name, i - 1);
    }
}

proof fn lemma_absent(s: Seq<Preset>, step: StepId, name: Seq<char>)
    requires
        forall|j: int| 0 <= j < s.len() ==> !is_named(#[trigger] s[j], step, name),
    ensures
        position(s, step, name) is None,
        lookup(s, step, name) is None,
    decreases s.len(),
{
    if s.len() > 0 {
        assert(!is_named(s[0], step, name));
        assert forall|j: int| 0 <= j < s.len() - 1 implies !is_named(#[trigger] s.drop_first()[j], step, name) by {
            assert(s.drop_first()[j] == s[j + 1]);
        }
        lemma_absent(s.drop_first(), step, name);
    }
}

proof fn lemma_position(s: Seq<Preset>, step: StepId, name: Seq<char>)
    ensures
        match position(s, step, name) {
            Some(i) => 0 <= i < s.len() && is_named(s[i], step, name)
                && (forall|j: int| 0 <= j < i ==> !is_named(#[trigger] s[j], step, name))
                && lookup(s, step, name) == Some(s[i]),
            None => (forall|j: int| 0 <= j < s.len() ==> !is_named(#[trigger] s[j], step, name))
                && lookup(s, step, name) is None,
        },
    decreases s.len(),
{
    if s.len() > 0 && !is_named(s[0], step, name) {
        lemma_position(s.drop_first(), step, name);
        assert forall|j: int| 0 < j < s.len() implies s[j] == #[trigger] s.drop_first()[j - 1] by {}
        match position(s.drop_first(), step, name) {
            Some(i) => {
                assert forall|j: int| 0 <= j < i + 1 implies !is_named(#[trigger] s[j], step, name) by {
                    if j > 0 {
                        assert(s[j] == s.drop_first()[j - 1]);
                    }
                }
            },
            None => {
                assert forall|j: int| 0 <= j < s.len() implies !is_named(#[trigger] s[j], step, name) by {
                    if j > 0 {
                        assert(s[j] == s.drop_first()[j - 1]);
                    }
                }
            },
        }
    }
}

proof fn lemma_without_remove(s: Seq<Preset>, step: StepId, name: Seq<char>, i: int)
    requires
        0 <= i < s.len(),
        is_named(s[i], step, name),
    ensures
        without(s.remove(i), step, name) == without(s, step, name),
    decreases s.len(),
{
    if i == 0 {
        assert(s.remove(0) =~= s.drop_first());
    } else {
        assert(s.remove(i)[0] == s[0]);
        assert(s.remove(i).drop_first() =~= s.drop_first().remove(i - 1));
        lemma_without_remove(s.drop_first(), step, name, i - 1);
    }
}

proof fn lemma_without_none(s: Seq<Preset>, step: StepId, name: Seq<char>)
    requires
        forall|j: int| 0 <= j < s.len() ==> !is_named(#[trigger] s[j], step, name),
    ensures
        without(s, step, name) == s,
    decreases s.len(),
{
    if s.len() > 0 {
        assert(!is_named(s[0], step, name));
        assert forall|j: int| 0 <= j < s.len() - 1 implies !is_named(#[trigger] s.drop_first()[j], step, name) by {
            assert(s.drop_first()[j] == s[j + 1]);
        }
        lemma_without_none(s.drop_first(), step, name);
        assert(seq![s[0]] + s.drop_first() =~= s);
    }
}

proof fn lemma_without_has_none(s: Seq<Preset>, step: StepId, name: Seq<char>)
    ensures
        forall|j: int| 0 <= j < without(s, step, name).len() ==> !is_named(#[trigger] without(s, step, name)[j], step, name),
    decreases s.len(),
{
    if s.len() > 0 {
        lemma_without_has_none(s.drop_first(), step, name);
        let w = without(s.drop_first(), step, name);
        if !is_named(s[0], step, name) {
            assert forall|j: int| 0 <= j < without(s, step, name).len() implies !is_named(#[trigger] without(s, step, name)[j], step, name) by {
                if j > 0 {
                    assert(without(s, step, name)[j] == w[j - 1]);
                }
            }
        }
    }
}

proof fn lemma_without_keeps(s: Seq<Preset>, step: StepId, name: Seq<char>, other: StepId, other_name: Seq<char>)
    requires
        !(other == step && other_name == name),
    ensures
        lookup(without(s, step, name), other, other_name) == lookup(s, other, other_name),
    decreases s.len(),
{
    if s.len() > 0 {
        lemma_without_keeps(s.drop_first(), step, name, other, other_name);
        let w = without(s.drop_first(), step, name);
        if !is_named(s[0], step, name) {
            assert((seq![s[0]] + w)[0] == s[0]);
            assert((seq![s[0]] + w).drop_first() =~= w);
        }
    }
}

proof fn lemma_update_keeps(s: Seq<Preset>, i: int, p: Preset, other: StepId, other_name: Seq<char>)
    requires
        0 <= i < s.len(),
        !is_named(s[i], other, other_name),
        !is_named(p, other, other_name),
    ensures
        lookup(s.update(i, p), other, other_name) == lookup(s, other, other_name),
    decreases s.len(),
{
    if i == 0 {
        assert(s.update(0, p).drop_first() =~= s.drop_first());
    } else {
        assert(s.update(i, p)[0] == s[0]);
        assert(s.update(i, p).drop_first() =~= s.drop_first().update(i - 1, p));
        lemma_update_keeps(s.drop_first(), i - 1, p, other, other_name);
    }
}

proof fn lemma_push_keeps(s: Seq<Preset>, p: Preset, other: StepId, other_name: Seq<char>)
    requires
        !is_named(p, other, other_name),
    ensures
        lookup(s.push(p), other, other_name) == lookup(s, other, other_name),
    decreases s.len(),
{
    if s.len() == 0 {
        assert(s.push(p).drop_first() =~= s);
    } else {
        assert(s.push(p)[0] == s[0]);
        assert(s.push(p).drop_first() =~= s.drop_first().push(p));
        lemma_push_keeps(s.drop_first(), p, other, other_name);
    }
}

/// Upserting a preset and then looking it up by its step and name finds it.
pub proof fn upsert_reads_back(s: Seq<Preset>, p: Preset)
    ensures
        lookup(upserted(s, p), p.step, p.name@) == Some(p),
{
    lemma_position(s, p.step, p.name@);
    match position(s, p.step, p.name@) {
        Some(i) => {
            let t = s.update(i, p);
            assert forall|j: int| 0 <= j < i implies !is_named(#[trigger] t[j], p.step, p.name@) by {
                assert(t[j] == s[j]);
            }
            lemma_first(t, p.step, p.name@, i);
        },
        None => {
            let t = s.push(p);
            assert forall|j: int| 0 <= j < s.len() implies !is_named(#[trigger] t[j], p.step, p.name@) by {
                assert(t[j] == s[j]);
            }
            lemma_first(t, p.step, p.name@, s.len() as int);
        },
    }
}

/// Upserting a preset leaves every other step-and-name lookup as it was: names are scoped per
/// step, so the same name under another step is a different preset.
pub proof fn upsert_keeps_others(s: Seq<Preset>, p: Preset, step: StepId, name: Seq<char>)
    requires
        !(step == p.step && name == p.name@),
    ensures
        lookup(upserted(s, p), step, name) == lookup(s, step, name),
{
    lemma_position(s, p.step, p.name@);
    match position(s, p.step, p.name@) {
        Some(i) => lemma_update_keeps(s, i, p, step, name),
        None => lemma_push_keeps(s, p, step, name),
    }
}

/// Whether no two presets share a step and a name.
pub open spec fn names_unique(s: Seq<Preset>) -> bool {
    forall|i: int, j: int| 0 <= i < j < s.len() ==> !is_named(s[j], s[i].step, s[i].name@)
}

/// Upserting keeps names unique per step: a preset replaces its namesake rather than joining it.
pub proof fn upsert_keeps_names_unique(s: Seq<Preset>, p: Preset)
    requires
        names_unique(s),
    ensures
        names_unique(upserted(s, p)),
{
    lemma_position(s, p.step, p.name@);
    let t = upserted(s, p);
    match position(s, p.step, p.name@) {
        Some(k) => {
            assert forall|i: int, j: int| 0 <= i < j < t.len() implies !is_named(t[j], t[i].step, t[i].name@) by {
                assert(t[i].step == s[i].step && t[i].name@ == s[i].name@);
                assert(t[j].step == s[j].step && t[j].name@ == s[j].name@);
            }
        },
        None => {
            assert forall|i: int, j: int| 0 <= i < j < t.len() implies !is_named(t[j], t[i].step, t[i].name@) by {
                if j == s.len() {
                    assert(!is_named(s[i], p.step, p.name@));
                } else {
                    assert(t[j] == s[j]);
                }
            }
        },
    }
}

/// Removing keeps names unique.
pub proof fn remove_keeps_names_unique(s: Seq<Preset>, step: StepId, name: Seq<char>)
    requires
        names_unique(s),
    ensures
        names_unique(without(s, step, name)),
    decreases s.len(),
{
    if s.len() > 0 {
        assert(names_unique(s.drop_first())) by {
            assert forall|i: int, j: int| 0 <= i < j < s.len() - 1 implies !is_named(s.drop_first()[j], s.drop_first()[i].step, s.drop_first()[i].name@) by {
                assert(s.drop_first()[i] == s[i + 1] && s.drop_first()[j] == s[j + 1]);
            }
        }
        remove_keeps_names_unique(s.drop_first(), step, name);
        if !is_named(s[0], step, name) {
            let w = without(s.drop_first(), step, name);
            lemma_without_sub(s.drop_first(), step, name);
            let t = seq![s[0]] + w;
            assert forall|i: int, j: int| 0 <= i < j < t.len() implies !is_named(t[j], t[i].step, t[i].name@) by {
                if i == 0 {
                    let k = choose|k: int| 0 <= k < s.len() - 1 && s.drop_first()[k] == w[j - 1];
                    assert(s.drop_first()[k] == s[k + 1]);
                } else {
                    assert(t[i] == w[i - 1] && t[j] == w[j - 1]);
                }
            }
        }
    }
}

proof fn lemma_without_sub(s: Seq<Preset>, step: StepId, name: Seq<char>)
    ensures
        forall|j: int| 0 <= j < without(s, step, name).len() ==> exists|k: int| 0 <= k < s.len() && s[k] == #[trigger] without(s, step, name)[j],
    decreases s.len(),
{
    if s.len() > 0 {
        lemma_without_sub(s.drop_first(), step, name);
        let w = without(s.drop_first(), step, name);
        assert forall|j: int| 0 <= j < without(s, step, name).len() implies exists|k: int| 0 <= k < s.len() && s[k] == #[trigger] without(s, step, name)[j] by {
            if is_named(s[0], step, name) {
                let k = choose|k: int| 0 <= k < s.len() - 1 && s.drop_first()[k] == w[j];
                assert(s[k + 1] == w[j]);
            } else if j == 0 {
                assert(s[0] == without(s, step, name)[0]);
            } else {
                assert(without(s, step, name)[j] == w[j - 1]);
                let k = choose|k: int| 0 <= k < s.len() - 1 && s.drop_first()[k] == w[j - 1];
                assert(s[k + 1] == w[j - 1]);
            }
        }
    }
}

/// After a preset is removed, looking it up finds nothing, and every other lookup is unchanged.
pub proof fn remove_forgets_only_it(s: Seq<Preset>, step: StepId, name: Seq<char>, other: StepId, other_name: Seq<char>)
    ensures
        lookup(without(s, step, name), step, name) is None,
        !(other == step && other_name == name) ==> lookup(without(s, step, name), other, other_name) == lookup(s, other, other_name),
{
    lemma_without_has_none(s, step, name);
    lemma_absent(without(s, step, name), step, name);
    if !(other == step && other_name == name) {
        lemma_without_keeps(s, step, name, other, other_name);
    }
}

/// `ps` upserted into `s` one after another.
pub open spec fn upsert_all(s: Seq<Preset>, ps: Seq<Preset>) -> Seq<Preset>
    decreases ps.len(),
{
    if ps.len() == 0 {
        s
    } else {
        upserted(upsert_all(s, ps.drop_last()), ps.last())
    }
}

/// The presets offered: the built-ins, then the user's own over them.
pub open spec fn merged(builtins: Seq<Preset>, user: Seq<Preset>) -> Seq<Preset> {
    upsert_all(upsert_all(Seq::empty(), builtins), user)
}

/// A user preset wins over a built-in of the same step and name, and a built-in nobody
/// overrode is offered as it is. Built-ins are merged in rather than stored, so they improve
/// with the library while a user's own preset of the same name still wins.
pub proof fn user_presets_win(builtins: Seq<Preset>, user: Seq<Preset>, step: StepId, name: Seq<char>)
    requires
        names_unique(user),
    ensures
        forall|i: int| 0 <= i < user.len() ==> lookup(merged(builtins, user), #[trigger] user[i].step, user[i].name@) == Some(user[i]),
        (forall|i: int| 0 <= i < user.len() ==> !is_named(#[trigger] user[i], step, name))
            ==> lookup(merged(builtins, user), step, name) == lookup(upsert_all(Seq::empty(), builtins), step, name),
    decreases user.len(),
{
    let b = upsert_all(Seq::<Preset>::empty(), builtins);
    if user.len() > 0 {
        let rest = user.drop_last();
        assert(names_unique(rest)) by {
            assert forall|i: int, j: int| 0 <= i < j < rest.len() implies !is_named(rest[j], rest[i].step, rest[i].name@) by {
                assert(rest[i] == user[i] && rest[j] == user[j]);
            }
        }
        user_presets_win(builtins, rest, step, name);
        let last = user.last();
        assert forall|i: int| 0 <= i < user.len() implies lookup(merged(builtins, user), #[trigger] user[i].step, user[i].name@) == Some(user[i]) by {
            if i == user.len() - 1 {
                upsert_reads_back(upsert_all(b, rest), last);
            } else {
                assert(user[i] == rest[i]);
                assert(!is_named(user[user.len() - 1], user[i].step, user[i].name@));
                upsert_keeps_others(upsert_all(b, rest), last, user[i].step, user[i].name@);
            }
        }
        if forall|i: int| 0 <= i < user.len() ==> !is_named(#[trigger] user[i], step, name) {
            assert forall|i: int| 0 <= i < rest.len() implies !is_named(#[trigger] rest[i], step, name) by {
                assert(rest[i] == user[i]);
            }
            assert(!is_named(user[user.len() - 1], step, name));
            upsert_keeps_others(upsert_all(b, rest), last, step, name);
        }
    }
}

impl PresetStore {
    /// A store with nothing in it.
    pub fn new() -> (s: Self)
        ensures
            s.presets@.len() == 0,
    {
        PresetStore { presets: Vec::new() }
    }

    /// The presets saved for one step, in store order.
    pub fn for_step(&self, step: StepId) -> (r: Vec<&Preset>)
        ensures
            r@.len() == of_step(self.presets@, step).len(),
            forall|i: int| 0 <= i < r@.len() ==> *r@[i] == of_step(self.presets@, step)[i],
    {
        let mut r: Vec<&Preset> = Vec::new();
        let mut i: usize = 0;
        while i < self.presets.len()
            invariant
                i <= self.presets@.len(),
                r@.len() == of_step(self.presets@.take(i as int), step).len(),
                forall|k: int| 0 <= k < r@.len() ==> *r@[k] == of_step(self.presets@.take(i as int), step)[k],
            decreases self.presets@.len() - i,
        {
            assert(self.presets@.take(i + 1).drop_last() =~= self.presets@.take(i as int));
            if self.presets[i].step == step {
                r.push(&self.presets[i]);
            }
            i = i + 1;
        }
        assert(self.presets@.take(self.presets@.len() as int) =~= self.presets@);
        r
    }

    fn index_of(&self, step: StepId, name: &str) -> (r: Option<usize>)
        ensures
            match r {
                Some(i) => position(self.presets@, step, name@) == Some(i as int) && i < self.presets@.len(),
                None => position(self.presets@, step, name@) is None,
            },
    {
        let mut i: usize = 0;
        while i < self.presets.len()
            invariant
                i <= self.presets@.len(),
                forall|j: int| 0 <= j < i ==> !is_named(#[trigger] self.presets@[j], step, name@),
            decreases self.presets@.len() - i,
        {
            if self.presets[i].step == step && same_text(self.presets[i].name.as_str(), name) {
                proof {
                    lemma_first(self.presets@, step, name@, i as int);
                }
                return Some(i);
            }
            i = i + 1;
        }
        proof {
            lemma_absent(self.presets@, step, name@);
        }
        None
    }

    /// The preset called `name` for `step`, if there is one.
    pub fn get(&self, step: StepId, name: &str) -> (r: Option<&Preset>)
        ensures
            match r {
                Some(p) => lookup(self.presets@, step, name@) == Some(*p),
                None => lookup(self.presets@, step, name@) is None,
            },
    {
        proof {
            lemma_position(self.presets@, step, name@);
        }
        match self.index_of(step, name) {
            Some(i) => Some(&self.presets[i]),
            None => None,
        }
    }

    /// Insert, or replace the preset of the same name for the same step.
    pub fn upsert(&mut self, preset: Preset)
        ensures
            final(self).presets@ == upserted(old(self).presets@, preset),
    {
        match self.index_of(preset.step, preset.name.as_str()) {
            Some(i) => {
                self.presets[i] = preset;
            },
            None => {
                self.presets.push(preset);
            },
        }
    }

    /// The presets a user is offered: `builtins` upserted first, then `user`'s own over them.
    pub fn offered(builtins: Vec<Preset>, user: Vec<Preset>) -> (s: Self)
        ensures
            s.presets@ == merged(builtins@, user@),
    {
        let mut s = PresetStore::new();
        assert(s.presets@ =~= Seq::<Preset>::empty());
        let mut rest = builtins;
        let ghost all = rest@;
        let len0 = rest.len();
        let mut n: usize = 0;
        while rest.len() > 0
            invariant
                n + rest@.len() == all.len(),
                all.len() == len0,
                rest@ == all.skip(n as int),
                s.presets@ == upsert_all(Seq::empty(), all.take(n as int)),
            decreases rest@.len(),
        {
            let p = rest.remove(0);
            proof {
                assert(p == all[n as int]);
                assert(all.take(n + 1).drop_last() =~= all.take(n as int));
                assert(rest@ =~= all.skip(n + 1));
            }
            s.upsert(p);
            n = n + 1;
        }
        assert(all.take(n as int) =~= all);
        let ghost base = s.presets@;
        let mut rest = user;
        let ghost all = rest@;
        let len0 = rest.len();
        let mut n: usize = 0;
        while rest.len() > 0
            invariant
                n + rest@.len() == all.len(),
                all.len() == len0,
                rest@ == all.skip(n as int),
                s.presets@ == upsert_all(base, all.take(n as int)),
            decreases rest@.len(),
        {
            let p = rest.remove(0);
            proof {
                assert(p == all[n as int]);
                assert(all.take(n + 1).drop_last() =~= all.take(n as int));
                assert(rest@ =~= all.skip(n + 1));
            }
            s.upsert(p);
            n = n + 1;
        }
        assert(all.take(n as int) =~= all);
        s
    }

    /// Remove the preset called `name` for `step`; says whether there was one.
    pub fn remove(&mut self, step: StepId, name: &str) -> (found: bool)
        ensures
            final(self).presets@ == without(old(self).presets@, step, name@),
            found == (lookup(old(self).presets@, step, name@) is Some),
            found == (final(self).presets@.len() != old(self).presets@.len()),
    {
        let mut found = false;
        let mut i: usize = 0;
        proof {
            lemma_position(old(self).presets@, step, name@);
        }
        while i < self.presets.len()
            invariant
                i <= self.presets@.len(),
                forall|j: int| 0 <= j < i ==> !is_named(#[trigger] self.presets@[j], step, name@),
                without(self.presets@, step, name@) == without(old(self).presets@, step, name@),
                found == (self.presets@.len() != old(self).presets@.len()),
                (position(old(self).presets@, step, name@) is Some) <==> (found || exists|j: int| 0 <= j < self.presets@.len() && is_named(self.presets@[j], step, name@)),
                !found ==> self.presets@ == old(self).presets@,
                self.presets@.len() <= old(self).presets@.len(),
            decreases self.presets@.len() - i,
        {
            if self.presets[i].step == step && same_text(self.presets[i].name.as_str(), name) {
                let ghost before = self.presets@;
                proof {
                    lemma_without_remove(before, step, name@, i as int);
                    assert(is_named(before[i as int], step, name@));
                }
                self.presets.remove(i);
                found = true;
            } else {
                i = i + 1;
            }
        }
        proof {
            lemma_without_none(self.presets@, step, name@);
            lemma_position(old(self).presets@, step, name@);
        }
        found
    }
}

fn preset(name: &str, step: StepId, description: &str, values: Vec<(String, OptionValue)>) -> (p: Preset)
    ensures
        p.name@ == name@,
        p.step == step,
        p.description@ == description@,
        p.values == values,
{
    Preset {
        name: String::from_str(name),
        step,
        description: String::from_str(description),
        values,
    }
}

/// Each value's key and the value itself, its kind kept.
pub open spec fn value_rows(values: Seq<(String, OptionValue)>) -> Seq<(Seq<char>, ValueModel)> {
    values.map_values(|p: (String, OptionValue)| (p.0@, p.1@))
}

/// What the measured basemap preset sets: JSON booleans, numbers as JSON renders them, and
/// texts.
pub open spec fn measured_basemap_values() -> Seq<(Seq<char>, ValueModel)> {
    seq![
        ("compact_db"@, ValueModel::Bool(true)),
        ("drop_redundant_name_int"@, ValueModel::Bool(true)),
        ("exclude_layers"@, ValueModel::Text("route"@)),
        ("landcover_drop_redundant_subclass"@, ValueModel::Bool(true)),
        ("landcover_merge_maxzoom"@, ValueModel::Bool(true)),
        ("landcover_tolerance_z11_13"@, ValueModel::Number("1.05"@)),
        ("languages"@, ValueModel::Text(""@)),
        ("max_point_buffer"@, ValueModel::Number("4"@)),
        ("min_feature_size_at_max_zoom"@, ValueModel::Number("0.25"@)),
        ("mlt_shared_dict"@, ValueModel::Bool(true)),
        ("nodemap_type"@, ValueModel::Text("sparsearray"@)),
        ("parallel_tmp_io"@, ValueModel::Bool(true)),
        ("simplify_tolerance"@, ValueModel::Number("0.7"@)),
        ("simplify_tolerance_at_max_zoom"@, ValueModel::Number("0.25"@)),
        ("transportation_name_limit_merge"@, ValueModel::Bool(true)),
        ("transportation_surface_detail"@, ValueModel::Bool(true)),
        ("transportation_z13_paths"@, ValueModel::Bool(true)),
        ("water_pool_tolerance"@, ValueModel::Number("1"@)),
    ]
}

/// What the measured routes preset sets.
pub open spec fn measured_routes_values() -> Seq<(Seq<char>, ValueModel)> {
    seq![
        ("compact_db"@, ValueModel::Bool(true)),
        ("languages"@, ValueModel::Text(""@)),
        ("max_point_buffer"@, ValueModel::Number("4"@)),
        ("min_feature_size_at_max_zoom"@, ValueModel::Number("0.25"@)),
        ("mlt_shared_dict"@, ValueModel::Bool(true)),
        ("nodemap_type"@, ValueModel::Text("sparsearray"@)),
        ("only_layers"@, ValueModel::Text("route"@)),
        ("parallel_tmp_io"@, ValueModel::Bool(true)),
        ("route_extent_digits"@, ValueModel::Number("2"@)),
        ("route_road_tolerance"@, ValueModel::Bool(true)),
        ("route_symbol_id"@, ValueModel::Bool(true)),
        ("simplify_tolerance_at_max_zoom"@, ValueModel::Number("0.25"@)),
        ("transportation_name_limit_merge"@, ValueModel::Bool(true)),
    ]
}

/// What the stock preset sets: only the layer the routes step builds is left out.
pub open spec fn stock_basemap_values() -> Seq<(Seq<char>, ValueModel)> {
    seq![("exclude_layers"@, ValueModel::Text("route"@))]
}

/// The keys of value rows, in order.
pub open spec fn keys_of_rows(rows: Seq<(Seq<char>, ValueModel)>) -> Seq<Seq<char>> {
    rows.map_values(|r: (Seq<char>, ValueModel)| r.0)
}

/// Values as a map holds them: each key once, in text order.
pub open spec fn values_in_order(values: Seq<(String, OptionValue)>) -> bool {
    strictly_sorted(keys_of_rows(value_rows(values)))
}

proof fn lemma_measured_basemap_in_order()
    ensures
        strictly_sorted(keys_of_rows(measured_basemap_values())),
{
    reveal_strlit("compact_db");
    reveal_strlit("drop_redundant_name_int");
    reveal_strlit("exclude_layers");
    reveal_strlit("landcover_drop_redundant_subclass");
    reveal_strlit("landcover_merge_maxzoom");
    reveal_strlit("landcover_tolerance_z11_13");
    reveal_strlit("languages");
    reveal_strlit("max_point_buffer");
    reveal_strlit("min_feature_size_at_max_zoom");
    reveal_strlit("mlt_shared_dict");
    reveal_strlit("nodemap_type");
    reveal_strlit("parallel_tmp_io");
    reveal_strlit("simplify_tolerance");
    reveal_strlit("simplify_tolerance_at_max_zoom");
    reveal_strlit("transportation_name_limit_merge");
    reveal_strlit("transportation_surface_detail");
    reveal_strlit("transportation_z13_paths");
    reveal_strlit("water_pool_tolerance");
    lemma_lex_at("compact_db"@, "drop_redundant_name_int"@, 0);
    lemma_lex_at("drop_redundant_name_int"@, "exclude_layers"@, 0);
    lemma_lex_at("exclude_layers"@, "landcover_drop_redundant_subclass"@, 0);
    lemma_lex_at("landcover_drop_redundant_subclass"@, "landcover_merge_maxzoom"@, 10);
    lemma_lex_at("landcover_merge_maxzoom"@, "landcover_tolerance_z11_13"@, 10);
    lemma_lex_at("landcover_tolerance_z11_13"@, "languages"@, 3);
    lemma_lex_at("languages"@, "max_point_buffer"@, 0);
    lemma_lex_at("max_point_buffer"@, "min_feature_size_at_max_zoom"@, 1);
    lemma_lex_at("min_feature_size_at_max_zoom"@, "mlt_shared_dict"@, 1);
    lemma_lex_at("mlt_shared_dict"@, "nodemap_type"@, 0);
    lemma_lex_at("nodemap_type"@, "parallel_tmp_io"@, 0);
    lemma_lex_at("parallel_tmp_io"@, "simplify_tolerance"@, 0);
    lemma_lex_at("simplify_tolerance"@, "simplify_tolerance_at_max_zoom"@, 18);
    lemma_lex_at("simplify_tolerance_at_max_zoom"@, "transportation_name_limit_merge"@, 0);
    lemma_lex_at("transportation_name_limit_merge"@, "transportation_surface_detail"@, 15);
    lemma_lex_at("transportation_surface_detail"@, "transportation_z13_paths"@, 15);
    lemma_lex_at("transportation_z13_paths"@, "water_pool_tolerance"@, 0);
    let ks = keys_of_rows(measured_basemap_values());
    assert(ks =~= seq!["compact_db"@, "drop_redundant_name_int"@, "exclude_layers"@, "landcover_drop_redundant_subclass"@, "landcover_merge_maxzoom"@, "landcover_tolerance_z11_13"@, "languages"@, "max_point_buffer"@, "min_feature_size_at_max_zoom"@, "mlt_shared_dict"@, "nodemap_type"@, "parallel_tmp_io"@, "simplify_tolerance"@, "simplify_tolerance_at_max_zoom"@, "transportation_name_limit_merge"@, "transportation_surface_detail"@, "transportation_z13_paths"@, "water_pool_tolerance"@]);
    lemma_sorted_from_adjacent(ks);
}

proof fn lemma_measured_routes_in_order()
    ensures
        strictly_sorted(keys_of_rows(measured_routes_values())),
{
    reveal_strlit("compact_db");
    reveal_strlit("languages");
    reveal_strlit("max_point_buffer");
    reveal_strlit("min_feature_size_at_max_zoom");
    reveal_strlit("mlt_shared_dict");
    reveal_strlit("nodemap_type");
    reveal_strlit("only_layers");
    reveal_strlit("parallel_tmp_io");
    reveal_strlit("route_extent_digits");
    reveal_strlit("route_road_tolerance");
    reveal_strlit("route_symbol_id");
    reveal_strlit("simplify_tolerance_at_max_zoom");
    reveal_strlit("transportation_name_limit_merge");
    lemma_lex_at("compact_db"@, "languages"@, 0);
    lemma_lex_at("languages"@, "max_point_buffer"@, 0);
    lemma_lex_at("max_point_buffer"@, "min_feature_size_at_max_zoom"@, 1);
    lemma_lex_at("min_feature_size_at_max_zoom"@, "mlt_shared_dict"@, 1);
    lemma_lex_at("mlt_shared_dict"@, "nodemap_type"@, 0);
    lemma_lex_at("nodemap_type"@, "only_layers"@, 0);
    lemma_lex_at("only_layers"@, "parallel_tmp_io"@, 0);
    lemma_lex_at("parallel_tmp_io"@, "route_extent_digits"@, 0);
    lemma_lex_at("route_extent_digits"@, "route_road_tolerance"@, 6);
    lemma_lex_at("route_road_tolerance"@, "route_symbol_id"@, 6);
    lemma_lex_at("route_symbol_id"@, "simplify_tolerance_at_max_zoom"@, 0);
    lemma_lex_at("simplify_tolerance_at_max_zoom"@, "transportation_name_limit_merge"@, 0);
    let ks = keys_of_rows(measured_routes_values());
    assert(ks =~= seq!["compact_db"@, "languages"@, "max_point_buffer"@, "min_feature_size_at_max_zoom"@, "mlt_shared_dict"@, "nodemap_type"@, "only_layers"@, "parallel_tmp_io"@, "route_extent_digits"@, "route_road_tolerance"@, "route_symbol_id"@, "simplify_tolerance_at_max_zoom"@, "transportation_name_limit_merge"@]);
    lemma_sorted_from_adjacent(ks);
}

pub open spec fn measured_basemap_text() -> Seq<char> {
    "The basemap command from the repo README - the flag set that produces the shipped tiles. -8.8% of tile bytes against a build with none of it, with vertex removal doing the work rather than feature deletion, plus road surface detail."@
}

pub open spec fn measured_routes_text() -> Seq<char> {
    "The routes command from the repo README. Keeps name, extent and symbol - nothing is dropped - with simplification matched to the transportation layer so routes stay aligned with the tracks they follow."@
}

pub open spec fn stock_text() -> Seq<char> {
    "Planetiler defaults, as a comparison baseline."@
}

/// The flag sets this repository actually measured, shipped so a fresh install starts from the
/// tuned configuration rather than from nothing.
pub fn builtin() -> (presets: Vec<Preset>)
    ensures
        presets@.len() == 3,
        presets@[0].name@ == "measured"@ && presets@[0].step == StepId::Basemap,
        presets@[0].description@ == measured_basemap_text(),
        value_rows(presets@[0].values@) == measured_basemap_values(),
        presets@[1].name@ == "measured"@ && presets@[1].step == StepId::Routes,
        presets@[1].description@ == measured_routes_text(),
        value_rows(presets@[1].values@) == measured_routes_values(),
        presets@[2].name@ == "stock"@ && presets@[2].step == StepId::Basemap,
        presets@[2].description@ == stock_text(),
        value_rows(presets@[2].values@) == stock_basemap_values(),
        forall|k: int| 0 <= k < 3 ==> values_in_order(#[trigger] presets@[k].values@),
{
    proof {
        reveal_strlit("true");
        lemma_measured_basemap_in_order();
        lemma_measured_routes_in_order();
    }
    let mut basemap: Vec<(String, OptionValue)> = Vec::new();
    basemap.push((String::from_str("compact_db"), OptionValue::Bool(true)));
    basemap.push((String::from_str("drop_redundant_name_int"), OptionValue::Bool(true)));
    basemap.push((String::from_str("exclude_layers"), OptionValue::Text(String::from_str("route"))));
    basemap.push((String::from_str("landcover_drop_redundant_subclass"), OptionValue::Bool(true)));
    basemap.push((String::from_str("landcover_merge_maxzoom"), OptionValue::Bool(true)));
    basemap.push((String::from_str("landcover_tolerance_z11_13"), OptionValue::Number(String::from_str("1.05"))));
    basemap.push((String::from_str("languages"), OptionValue::Text(String::from_str(""))));
    basemap.push((String::from_str("max_point_buffer"), OptionValue::Number(String::from_str("4"))));
    basemap.push((String::from_str("min_feature_size_at_max_zoom"), OptionValue::Number(String::from_str("0.25"))));
    basemap.push((String::from_str("mlt_shared_dict"), OptionValue::Bool(true)));
    basemap.push((String::from_str("nodemap_type"), OptionValue::Text(String::from_str("sparsearray"))));
    basemap.push((String::from_str("parallel_tmp_io"), OptionValue::Bool(true)));
    basemap.push((String::from_str("simplify_tolerance"), OptionValue::Number(String::from_str("0.7"))));
    basemap.push((String::from_str("simplify_tolerance_at_max_zoom"), OptionValue::Number(String::from_str("0.25"))));
    basemap.push((String::from_str("transportation_name_limit_merge"), OptionValue::Bool(true)));
    basemap.push((String::from_str("transportation_surface_detail"), OptionValue::Bool(true)));
    basemap.push((String::from_str("transportation_z13_paths"), OptionValue::Bool(true)));
    basemap.push((String::from_str("water_pool_tolerance"), OptionValue::Number(String::from_str("1"))));
    let mut routes: Vec<(String, OptionValue)> = Vec::new();
    routes.push((String::from_str("compact_db"), OptionValue::Bool(true)));
    routes.push((String::from_str("languages"), OptionValue::Text(String::from_str(""))));
    routes.push((String::from_str("max_point_buffer"), OptionValue::Number(String::from_str("4"))));
    routes.push((String::from_str("min_feature_size_at_max_zoom"), OptionValue::Number(String::from_str("0.25"))));
    routes.push((String::from_str("mlt_shared_dict"), OptionValue::Bool(true)));
    routes.push((String::from_str("nodemap_type"), OptionValue::Text(String::from_str("sparsearray"))));
    routes.push((String::from_str("only_layers"), OptionValue::Text(String::from_str("route"))));
    routes.push((String::from_str("parallel_tmp_io"), OptionValue::Bool(true)));
    routes.push((String::from_str("route_extent_digits"), OptionValue::Number(String::from_str("2"))));
    routes.push((String::from_str("route_road_tolerance"), OptionValue::Bool(true)));
    routes.push((String::from_str("route_symbol_id"), OptionValue::Bool(true)));
    routes.push((String::from_str("simplify_tolerance_at_max_zoom"), OptionValue::Number(String::from_str("0.25"))));
    routes.push((String::from_str("transportation_name_limit_merge"), OptionValue::Bool(true)));
    let mut stock: Vec<(String, OptionValue)> = Vec::new();
    stock.push((String::from_str("exclude_layers"), OptionValue::Text(String::from_str("route"))));
    assert(value_rows(basemap@) =~= measured_basemap_values());
    assert(value_rows(routes@) =~= measured_routes_values());
    assert(value_rows(stock@) =~= stock_basemap_values());
    let mut presets: Vec<Preset> = Vec::new();
    presets.push(preset("measured", StepId::Basemap,
        "The basemap command from the repo README - the flag set that produces the shipped tiles. -8.8% of tile bytes against a build with none of it, with vertex removal doing the work rather than feature deletion, plus road surface detail.",
        basemap));
    presets.push(preset("measured", StepId::Routes,
        "The routes command from the repo README. Keeps name, extent and symbol - nothing is dropped - with simplification matched to the transportation layer so routes stay aligned with the tracks they follow.",
        routes));
    presets.push(preset("stock", StepId::Basemap, "Planetiler defaults, as a comparison baseline.", stock));
    assert(strictly_sorted(keys_of_rows(stock_basemap_values())));
    presets
}

} // verus!
