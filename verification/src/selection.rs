//! Which recorded matches an analytics profile looks at: the scope and region filters, the
//! division filter, the patches on offer (newest first) and the patch filter, where "latest"
//! stands for the newest patch among the matches in scope.
use vstd::prelude::*;

use crate::index::{division_matches, scope_matches, version_key, digit_runs, run_values, Division, MatchKind};
use crate::ordered::{chars_lt, lemma_lt_irreflexive, lemma_lt_total, lemma_lt_transitive, str_lt, strs};
use crate::profile::{profile_error, DivisionFilter, GameScope, RegionFilter, TierProfile};
use crate::text::{chars_eq, chars_of};

verus! {

/// The version numbers of a patch name.
pub open spec fn patch_key(patch: Seq<char>) -> Seq<u64> {
    run_values(digit_runs(patch))
}

/// Lexicographic order of version numbers: at the first difference the number is smaller, or
/// the first is a proper prefix of the second.
pub open spec fn key_lt(a: Seq<u64>, b: Seq<u64>) -> bool
    decreases a.len(),
{
    if a.len() == 0 {
        b.len() > 0
    } else if b.len() == 0 {
        false
    } else if a[0] != b[0] {
        a[0] < b[0]
    } else {
        key_lt(a.drop_first(), b.drop_first())
    }
}

pub proof fn lemma_key_irreflexive(a: Seq<u64>)
    ensures
        !key_lt(a, a),
    decreases a.len(),
{
    if a.len() > 0 {
        lemma_key_irreflexive(a.drop_first());
    }
}

pub proof fn lemma_key_transitive(a: Seq<u64>, b: Seq<u64>, c: Seq<u64>)
    requires
        key_lt(a, b),
        key_lt(b, c),
    ensures
        key_lt(a, c),
    decreases a.len(),
{
    if a.len() > 0 && b.len() > 0 && c.len() > 0 && a[0] == b[0] && b[0] == c[0] {
        lemma_key_transitive(a.drop_first(), b.drop_first(), c.drop_first());
    }
}

pub proof fn lemma_key_total(a: Seq<u64>, b: Seq<u64>)
    requires
        a != b,
    ensures
        key_lt(a, b) || key_lt(b, a),
    decreases a.len(),
{
    if a.len() == 0 && b.len() == 0 {
        assert(a =~= b);
    } else if a.len() > 0 && b.len() > 0 && a[0] == b[0] {
        if a.drop_first() == b.drop_first() {
            assert(a =~= b) by {
                assert(a.drop_first().len() == b.drop_first().len());
                assert(a.len() == b.len());
                assert forall|k: int| 0 <= k < a.len() implies a[k] == b[k] by {
                    if k > 0 {
                        assert(a[k] == a.drop_first()[k - 1]);
                        assert(b[k] == b.drop_first()[k - 1]);
                    }
                }
            }
        } else {
            lemma_key_total(a.drop_first(), b.drop_first());
        }
    }
}

/// Whether version numbers `a` order strictly before `b`.
fn key_less(a: &[u64], b: &[u64]) -> (less: bool)
    ensures
        less == key_lt(a@, b@),
{
    let mut i: usize = 0;
    assert(a@.subrange(0, a@.len() as int) =~= a@);
    assert(b@.subrange(0, b@.len() as int) =~= b@);
    while i < a.len() && i < b.len() && a[i] == b[i]
        invariant
            i <= a@.len(),
            i <= b@.len(),
            key_lt(a@, b@) == key_lt(
                a@.subrange(i as int, a@.len() as int),
                b@.subrange(i as int, b@.len() as int),
            ),
        decreases a.len() - i,
    {
        let ghost xs = a@.subrange(i as int, a@.len() as int);
        let ghost ys = b@.subrange(i as int, b@.len() as int);
        assert(xs.drop_first() =~= a@.subrange(i + 1, a@.len() as int));
        assert(ys.drop_first() =~= b@.subrange(i + 1, b@.len() as int));
        i = i + 1;
    }
    if i == a.len() {
        i < b.len()
    } else if i == b.len() {
        false
    } else {
        a[i] < b[i]
    }
}

/// Whether two lists of version numbers are the same.
fn keys_equal(a: &[u64], b: &[u64]) -> (same: bool)
    ensures
        same == (a@ == b@),
{
    if a.len() != b.len() {
        return false;
    }
    let mut i: usize = 0;
    while i < a.len()
        invariant
            i <= a@.len(),
            a@.len() == b@.len(),
            forall|k: int| 0 <= k < i ==> a@[k] == b@[k],
        decreases a.len() - i,
    {
        if a[i] != b[i] {
            return false;
        }
        i = i + 1;
    }
    assert(a@ =~= b@);
    true
}

/// The order of the patches on offer: newer versions first, and patches with the same
/// version numbers by name.
pub open spec fn patch_before(a: Seq<char>, b: Seq<char>) -> bool {
    key_lt(patch_key(b), patch_key(a)) || (patch_key(a) == patch_key(b) && chars_lt(a, b))
}

pub proof fn lemma_patch_before_irreflexive(a: Seq<char>)
    ensures
        !patch_before(a, a),
{
    lemma_key_irreflexive(patch_key(a));
    lemma_lt_irreflexive(a);
}

pub proof fn lemma_patch_before_transitive(a: Seq<char>, b: Seq<char>, c: Seq<char>)
    requires
        patch_before(a, b),
        patch_before(b, c),
    ensures
        patch_before(a, c),
{
    let (ka, kb, kc) = (patch_key(a), patch_key(b), patch_key(c));
    if key_lt(kb, ka) && key_lt(kc, kb) {
        lemma_key_transitive(kc, kb, ka);
    } else if key_lt(kb, ka) {
        assert(kb == kc);
    } else if key_lt(kc, kb) {
        assert(ka == kb);
    } else {
        lemma_lt_transitive(a, b, c);
    }
}

pub proof fn lemma_patch_before_total(a: Seq<char>, b: Seq<char>)
    requires
        a != b,
    ensures
        patch_before(a, b) || patch_before(b, a),
{
    if patch_key(a) != patch_key(b) {
        lemma_key_total(patch_key(a), patch_key(b));
    } else {
        lemma_lt_total(a, b);
    }
}

/// Whether patch `a` is offered before patch `b`.
fn patch_first(a: &str, b: &str) -> (first: bool)
    ensures
        first == patch_before(a@, b@),
{
    let ka = version_key(a);
    let kb = version_key(b);
    if key_less(kb.as_slice(), ka.as_slice()) {
        true
    } else if keys_equal(ka.as_slice(), kb.as_slice()) {
        str_lt(a, b)
    } else {
        false
    }
}

/// What the analytics filters read of a recorded match.
#[derive(Debug, Clone, PartialEq, Eq)]
pub struct MatchScope {
    pub kind: MatchKind,
    pub region: RegionFilter,
    pub division: Option<Division>,
    pub patch: String,
}

/// The match counts under the profile's game scope and region.
pub open spec fn in_scope(profile: TierProfile, m: MatchScope) -> bool {
    &&& (profile.scope == GameScope::SoloAndTournament || (profile.scope == GameScope::Tournament
        && m.kind == MatchKind::Tournament) || (profile.scope == GameScope::Solo && m.kind
        == MatchKind::Solo))
    &&& (profile.region == RegionFilter::All || profile.region == m.region)
}

/// The match also passes the profile's division filter.
pub open spec fn is_candidate(profile: TierProfile, m: MatchScope) -> bool {
    &&& in_scope(profile, m)
    &&& match profile.division {
        DivisionFilter::All => true,
        DivisionFilter::First => m.division == Some(Division::First),
        DivisionFilter::Second => m.division == Some(Division::Second),
    }
}

fn scope_passes(profile: &TierProfile, m: &MatchScope) -> (passes: bool)
    ensures
        passes == in_scope(*profile, *m),
{
    scope_matches(profile.scope, m.kind) && (profile.region == RegionFilter::All
        || profile.region == m.region)
}

fn candidate_passes(profile: &TierProfile, m: &MatchScope) -> (passes: bool)
    ensures
        passes == is_candidate(*profile, *m),
{
    scope_passes(profile, m) && division_matches(profile.division, m.division)
}

/// The patches of the matches in scope.
pub open spec fn scoped_patches(profile: TierProfile, matches: Seq<MatchScope>) -> Set<Seq<char>> {
    Set::new(
        |p: Seq<char>|
            exists|k: int| 0 <= k < matches.len() && in_scope(profile, #[trigger] matches[k]) && matches[k].patch@ == p,
    )
}

/// The patches on offer: each patch of a match in scope once, newest version first.
pub fn available_patches(profile: &TierProfile, matches: &[MatchScope]) -> (patches: Vec<String>)
    ensures
        forall|i: int, j: int| 0 <= i < j < patches@.len() ==> patch_before(patches@[i]@, patches@[j]@),
        strs(patches@).to_set() == scoped_patches(*profile, matches@),
{
    let mut patches: Vec<String> = Vec::new();
    let mut k: usize = 0;
    while k < matches.len()
        invariant
            k <= matches@.len(),
            forall|i: int, j: int| 0 <= i < j < patches@.len() ==> patch_before(patches@[i]@, patches@[j]@),
            strs(patches@).to_set() == scoped_patches(*profile, matches@.subrange(0, k as int)),
        decreases matches.len() - k,
    {
        let ghost before = patches@;
        proof {
            assert(matches@.subrange(0, k + 1).drop_last() =~= matches@.subrange(0, k as int));
        }
        if scope_passes(profile, &matches[k]) {
            let patch = &matches[k].patch;
            let mut p: usize = 0;
            while p < patches.len() && patch_first(patches[p].as_str(), patch.as_str())
                invariant
                    p <= patches@.len(),
                    patches@ == before,
                    forall|i: int| 0 <= i < p ==> patch_before(#[trigger] patches@[i]@, patch@),
                decreases patches.len() - p,
            {
                p = p + 1;
            }
            let present = p < patches.len() && chars_eq(
                &chars_of(patches[p].as_str()),
                &chars_of(patch.as_str()),
            );
            if !present {
                patches.insert(p, patch.clone());
            }
            proof {
                let m = matches@.subrange(0, k + 1);
                assert forall|i: int| p <= i < before.len() implies patch_before(patch@, #[trigger] before[i]@) || before[i]@ == patch@ by {
                    if i == p {
                        if before[i]@ != patch@ {
                            lemma_patch_before_total(before[i]@, patch@);
                        }
                    } else {
                        if before[p as int]@ != patch@ {
                            lemma_patch_before_total(before[p as int]@, patch@);
                            lemma_patch_before_transitive(patch@, before[p as int]@, before[i]@);
                        } else {
                        }
                    }
                }
                if present {
                    assert(patches@ == before);
                    assert(strs(patches@).to_set() =~= scoped_patches(*profile, m)) by {
                        assert forall|s: Seq<char>| #[trigger] scoped_patches(*profile, m).contains(s) implies strs(patches@).to_set().contains(s) by {
                            let w = choose|w: int| 0 <= w < m.len() && in_scope(*profile, #[trigger] m[w]) && m[w].patch@ == s;
                            if w < k {
                                assert(matches@.subrange(0, k as int)[w] == m[w]);
                                assert(scoped_patches(*profile, matches@.subrange(0, k as int)).contains(s));
                            } else {
                                assert(strs(patches@)[p as int] == s);
                            }
                        }
                        assert forall|s: Seq<char>| #[trigger] strs(patches@).to_set().contains(s) implies scoped_patches(*profile, m).contains(s) by {
                            assert(scoped_patches(*profile, matches@.subrange(0, k as int)).contains(s));
                            let w = choose|w: int| 0 <= w < k && in_scope(*profile, #[trigger] matches@.subrange(0, k as int)[w]) && matches@.subrange(0, k as int)[w].patch@ == s;
                            assert(m[w] == matches@.subrange(0, k as int)[w]);
                        }
                    }
                } else {
                    let after = patches@;
                    assert(after =~= before.insert(p as int, *patch));
                    assert forall|i: int, j: int| 0 <= i < j < after.len() implies patch_before(after[i]@, after[j]@) by {
                        if j == p {
                        } else if i == p {
                            assert(after[j] == before[j - 1]);
                            assert(before[j - 1]@ != patch@) by {
                                if j - 1 > p {
                                    lemma_patch_before_irreflexive(before[p as int]@);
                                    if before[j - 1]@ == patch@ {
                                        assert(before[p as int]@ != patch@);
                                        lemma_patch_before_total(before[p as int]@, patch@);
                                        lemma_patch_before_transitive(patch@, before[p as int]@, before[j - 1]@);
                                        lemma_patch_before_irreflexive(patch@);
                                    }
                                }
                            }
                        } else if i < p && j > p {
                            assert(after[j] == before[j - 1]);
                        } else if i > p {
                            assert(after[i] == before[i - 1]);
                            assert(after[j] == before[j - 1]);
                        }
                    }
                    assert(strs(after) =~= strs(before).insert(p as int, patch@));
                    assert(strs(patches@).to_set() =~= scoped_patches(*profile, m)) by {
                        assert forall|s: Seq<char>| #[trigger] scoped_patches(*profile, m).contains(s) implies strs(patches@).to_set().contains(s) by {
                            let w = choose|w: int| 0 <= w < m.len() && in_scope(*profile, #[trigger] m[w]) && m[w].patch@ == s;
                            if w < k {
                                assert(matches@.subrange(0, k as int)[w] == m[w]);
                                assert(scoped_patches(*profile, matches@.subrange(0, k as int)).contains(s));
                                let i = choose|i: int| 0 <= i < strs(before).len() && strs(before)[i] == s;
                                if i < p {
                                    assert(strs(after)[i] == s);
                                } else {
                                    assert(strs(after)[i + 1] == s);
                                }
                            } else {
                                assert(strs(after)[p as int] == s);
                            }
                        }
                        assert forall|s: Seq<char>| #[trigger] strs(patches@).to_set().contains(s) implies scoped_patches(*profile, m).contains(s) by {
                            let i = choose|i: int| 0 <= i < strs(after).len() && strs(after)[i] == s;
                            if i == p {
                                assert(m[k as int] == matches@[k as int]);
                            } else {
                                let b = if i < p { i } else { i - 1 };
                                assert(strs(before)[b] == s);
                                assert(strs(before).to_set().contains(s));
                                assert(scoped_patches(*profile, matches@.subrange(0, k as int)).contains(s));
                                let w = choose|w: int| 0 <= w < k && in_scope(*profile, #[trigger] matches@.subrange(0, k as int)[w]) && matches@.subrange(0, k as int)[w].patch@ == s;
                                assert(m[w] == matches@.subrange(0, k as int)[w]);
                            }
                        }
                    }
                }
            }
        } else {
            proof {
                let m = matches@.subrange(0, k + 1);
                assert(scoped_patches(*profile, m) =~= scoped_patches(*profile, matches@.subrange(0, k as int))) by {
                    assert forall|s: Seq<char>| #[trigger] scoped_patches(*profile, m).contains(s) implies scoped_patches(*profile, matches@.subrange(0, k as int)).contains(s) by {
                        let w = choose|w: int| 0 <= w < m.len() && in_scope(*profile, #[trigger] m[w]) && m[w].patch@ == s;
                        assert(w < k);
                        assert(matches@.subrange(0, k as int)[w] == m[w]);
                    }
                    assert forall|s: Seq<char>| #[trigger] scoped_patches(*profile, matches@.subrange(0, k as int)).contains(s) implies scoped_patches(*profile, m).contains(s) by {
                        let w = choose|w: int| 0 <= w < k && in_scope(*profile, #[trigger] matches@.subrange(0, k as int)[w]) && matches@.subrange(0, k as int)[w].patch@ == s;
                        assert(m[w] == matches@.subrange(0, k as int)[w]);
                    }
                }
            }
        }
        k = k + 1;
    }
    assert(matches@.subrange(0, matches@.len() as int) =~= matches@);
    patches
}

/// The newest patch among the candidates, as the matches are walked in order: a later match
/// takes the place of the newest so far unless its version is older.
pub open spec fn latest_of(profile: TierProfile, matches: Seq<MatchScope>) -> Option<Seq<char>>
    decreases matches.len(),
{
    if matches.len() == 0 {
        None
    } else {
        let so_far = latest_of(profile, matches.drop_last());
        let m = matches.last();
        if !is_candidate(profile, m) {
            so_far
        } else {
            match so_far {
                None => Some(m.patch@),
                Some(p) => if key_lt(patch_key(m.patch@), patch_key(p)) {
                    Some(p)
                } else {
                    Some(m.patch@)
                },
            }
        }
    }
}

/// The newest patch is the patch of a candidate, and no candidate's version is newer; with no
/// candidate there is none.
pub proof fn lemma_latest_is_newest(profile: TierProfile, matches: Seq<MatchScope>)
    ensures
        latest_of(profile, matches) is None <==> forall|k: int|
            0 <= k < matches.len() ==> !is_candidate(profile, #[trigger] matches[k]),
        latest_of(profile, matches) matches Some(p) ==> (exists|k: int|
            0 <= k < matches.len() && is_candidate(profile, #[trigger] matches[k])
                && matches[k].patch@ == p) && forall|k: int|
            0 <= k < matches.len() && is_candidate(profile, #[trigger] matches[k]) ==> !key_lt(
                patch_key(p),
                patch_key(matches[k].patch@),
            ),
    decreases matches.len(),
{
    if matches.len() > 0 {
        let rest = matches.drop_last();
        lemma_latest_is_newest(profile, rest);
        let last = matches.len() - 1;
        assert forall|k: int| 0 <= k < rest.len() implies #[trigger] matches[k] == rest[k] by {}
        if let Some(p) = latest_of(profile, matches) {
            if is_candidate(profile, matches[last]) {
                match latest_of(profile, rest) {
                    None => {
                        assert forall|k: int| 0 <= k < matches.len() && is_candidate(profile, #[trigger] matches[k]) implies !key_lt(patch_key(p), patch_key(matches[k].patch@)) by {
                            if k < last {
                                assert(!is_candidate(profile, rest[k]));
                            } else {
                                lemma_key_irreflexive(patch_key(p));
                            }
                        }
                    },
                    Some(q) => {
                        let kl = patch_key(matches[last].patch@);
                        let kq = patch_key(q);
                        assert forall|k: int| 0 <= k < matches.len() && is_candidate(profile, #[trigger] matches[k]) implies !key_lt(patch_key(p), patch_key(matches[k].patch@)) by {
                            let kk = patch_key(matches[k].patch@);
                            lemma_key_irreflexive(patch_key(p));
                            if k < last {
                                assert(is_candidate(profile, rest[k]));
                                assert(!key_lt(kq, patch_key(rest[k].patch@)));
                                if key_lt(kl, kq) {
                                    assert(p == q);
                                } else {
                                    assert(p == matches[last].patch@);
                                    if key_lt(kl, kk) {
                                        if kl == kq {
                                        } else {
                                            lemma_key_total(kl, kq);
                                            lemma_key_transitive(kq, kl, kk);
                                        }
                                    }
                                }
                            } else if key_lt(kl, kq) {
                                assert(p == q);
                                if key_lt(kq, kl) {
                                    lemma_key_transitive(kq, kl, kq);
                                    lemma_key_irreflexive(kq);
                                }
                            }
                        }
                        if p == q {
                            let w = choose|w: int| 0 <= w < rest.len() && is_candidate(profile, #[trigger] rest[w]) && rest[w].patch@ == q;
                            assert(matches[w] == rest[w]);
                        }
                    },
                }
            } else {
                let w = choose|w: int| 0 <= w < rest.len() && is_candidate(profile, #[trigger] rest[w]) && rest[w].patch@ == p;
                assert(matches[w] == rest[w]);
                assert forall|k: int| 0 <= k < matches.len() && is_candidate(profile, #[trigger] matches[k]) implies !key_lt(patch_key(p), patch_key(matches[k].patch@)) by {
                    if k < last {
                        assert(is_candidate(profile, rest[k]));
                    }
                }
            }
        } else {
            assert(!is_candidate(profile, matches[last]));
            assert forall|k: int| 0 <= k < matches.len() implies !is_candidate(profile, #[trigger] matches[k]) by {
                if k < last {
                    assert(!is_candidate(profile, rest[k]));
                }
            }
        }
    }
}

/// The newest patch among the matches that pass the profile's scope, region and division.
pub fn latest_patch(profile: &TierProfile, matches: &[MatchScope]) -> (latest: Option<String>)
    ensures
        match latest {
            None => latest_of(*profile, matches@) is None,
            Some(p) => latest_of(*profile, matches@) == Some(p@),
        },
{
    let mut latest: Option<String> = None;
    let mut latest_key: Vec<u64> = Vec::new();
    let mut k: usize = 0;
    while k < matches.len()
        invariant
            k <= matches@.len(),
            match latest {
                None => latest_of(*profile, matches@.subrange(0, k as int)) is None,
                Some(p) => latest_of(*profile, matches@.subrange(0, k as int)) == Some(p@)
                    && latest_key@ == patch_key(p@),
            },
        decreases matches.len() - k,
    {
        proof {
            assert(matches@.subrange(0, k + 1).drop_last() =~= matches@.subrange(0, k as int));
        }
        if candidate_passes(profile, &matches[k]) {
            let key = version_key(matches[k].patch.as_str());
            let newer = match &latest {
                None => true,
                Some(_) => !key_less(key.as_slice(), latest_key.as_slice()),
            };
            if newer {
                latest = Some(matches[k].patch.clone());
                latest_key = key;
            }
        }
        k = k + 1;
    }
    assert(matches@.subrange(0, matches@.len() as int) =~= matches@);
    latest
}

/// Whether a match's patch passes the profile's patch filter: "latest" asks for the newest
/// patch, any other name for that patch, and no filter lets every patch pass.
pub open spec fn patch_passes(
    filter: Option<String>,
    latest: Option<Seq<char>>,
    patch: Seq<char>,
) -> bool {
    match filter {
        None => true,
        Some(f) => if f@ == "latest"@ {
            latest == Some(patch)
        } else {
            patch == f@
        },
    }
}

/// The match is one the profile's analytics count.
pub open spec fn is_selected(profile: TierProfile, matches: Seq<MatchScope>, k: int) -> bool {
    &&& is_candidate(profile, matches[k])
    &&& patch_passes(profile.patch, latest_of(profile, matches), matches[k].patch@)
}

/// The positions of the matches the profile selects, in order.
pub fn selected_matches(profile: &TierProfile, matches: &[MatchScope]) -> (selected: Vec<usize>)
    ensures
        forall|i: int, j: int| 0 <= i < j < selected@.len() ==> selected@[i] < selected@[j],
        forall|i: int| 0 <= i < selected@.len() ==> (#[trigger] selected@[i]) < matches@.len()
            && is_selected(*profile, matches@, selected@[i] as int),
        forall|k: int| 0 <= k < matches@.len() && is_selected(*profile, matches@, k) ==> selected@.contains(k as usize),
{
    let latest = latest_patch(profile, matches);
    let mut selected: Vec<usize> = Vec::new();
    let mut k: usize = 0;
    while k < matches.len()
        invariant
            k <= matches@.len(),
            match latest {
                None => latest_of(*profile, matches@) is None,
                Some(p) => latest_of(*profile, matches@) == Some(p@),
            },
            forall|i: int, j: int| 0 <= i < j < selected@.len() ==> selected@[i] < selected@[j],
            forall|i: int| 0 <= i < selected@.len() ==> (#[trigger] selected@[i]) < k
                && is_selected(*profile, matches@, selected@[i] as int),
            forall|w: int| 0 <= w < k && is_selected(*profile, matches@, w) ==> selected@.contains(w as usize),
        decreases matches.len() - k,
    {
        let m = &matches[k];
        let passes = if !candidate_passes(profile, m) {
            false
        } else {
            match &profile.patch {
                None => true,
                Some(filter) => {
                    if chars_eq(&chars_of(filter.as_str()), &chars_of("latest")) {
                        match &latest {
                            None => false,
                            Some(p) => chars_eq(&chars_of(p.as_str()), &chars_of(m.patch.as_str())),
                        }
                    } else {
                        chars_eq(&chars_of(m.patch.as_str()), &chars_of(filter.as_str()))
                    }
                },
            }
        };
        let ghost before = selected@;
        if passes {
            selected.push(k);
            proof {
                assert(selected@.last() == k);
                assert forall|w: int| 0 <= w < k + 1 && is_selected(*profile, matches@, w) implies selected@.contains(w as usize) by {
                    if w < k {
                        let i = choose|i: int| 0 <= i < before.len() && before[i] == w as usize;
                        assert(selected@[i] == w as usize);
                    } else {
                        assert(selected@[selected@.len() - 1] == w as usize);
                    }
                }
            }
        } else {
            proof {
                assert(!is_selected(*profile, matches@, k as int));
            }
        }
        k = k + 1;
    }
    selected
}

/// The positions of the matches that pass the profile's scope, region and division, in order.
pub fn candidate_positions(profile: &TierProfile, matches: &[MatchScope]) -> (positions: Vec<usize>)
    ensures
        forall|i: int, j: int| 0 <= i < j < positions@.len() ==> positions@[i] < positions@[j],
        forall|i: int| 0 <= i < positions@.len() ==> (#[trigger] positions@[i]) < matches@.len()
            && is_candidate(*profile, matches@[positions@[i] as int]),
        forall|k: int| 0 <= k < matches@.len() && is_candidate(*profile, #[trigger] matches@[k]) ==> positions@.contains(k as usize),
{
    let mut positions: Vec<usize> = Vec::new();
    let mut k: usize = 0;
    while k < matches.len()
        invariant
            k <= matches@.len(),
            forall|i: int, j: int| 0 <= i < j < positions@.len() ==> positions@[i] < positions@[j],
            forall|i: int| 0 <= i < positions@.len() ==> (#[trigger] positions@[i]) < k
                && is_candidate(*profile, matches@[positions@[i] as int]),
            forall|w: int| 0 <= w < k && is_candidate(*profile, #[trigger] matches@[w]) ==> positions@.contains(w as usize),
        decreases matches.len() - k,
    {
        let ghost before = positions@;
        if candidate_passes(profile, &matches[k]) {
            positions.push(k);
            proof {
                assert forall|w: int| 0 <= w < k + 1 && is_candidate(*profile, #[trigger] matches@[w]) implies positions@.contains(w as usize) by {
                    if w < k {
                        let i = choose|i: int| 0 <= i < before.len() && before[i] == w as usize;
                        assert(positions@[i] == w as usize);
                    } else {
                        assert(positions@[positions@.len() - 1] == w as usize);
                    }
                }
            }
        }
        k = k + 1;
    }
    positions
}

/// The text of an optional string.
pub open spec fn text_of(s: Option<String>) -> Option<Seq<char>> {
    match s {
        None => None,
        Some(t) => Some(t@),
    }
}

/// The patch a profile's patch filter names: the newest patch for "latest", the named patch
/// otherwise; `None` when there is no filter or "latest" finds no patch.
pub open spec fn filter_target(filter: Option<String>, latest: Option<Seq<char>>) -> Option<Seq<char>> {
    match filter {
        None => None,
        Some(f) => if f@ == "latest"@ {
            latest
        } else {
            Some(f@)
        },
    }
}

/// The first place of a patch in an order of patches.
pub open spec fn first_place(order: Seq<Seq<char>>, target: Seq<char>) -> Option<int> {
    if exists|i: int| 0 <= i < order.len() && order[i] == target {
        Some(choose|i: int| 0 <= i < order.len() && order[i] == target && forall|j: int| 0 <= j < i ==> order[j] != target)
    } else {
        None
    }
}

/// The patches whose matches a role profile may draw on, newest first: every patch without a
/// filter; with one, the filtered patch and the older ones after it, or none when the filtered
/// patch is not on offer.
pub fn patch_window(order: &[String], filter: &Option<String>, latest: &Option<String>) -> (window: Vec<String>)
    ensures
        filter is None ==> strs(window@) == strs(order@),
        filter is Some ==> match filter_target(*filter, text_of(*latest)) {
            None => window@.len() == 0,
            Some(t) => match first_place(strs(order@), t) {
                None => window@.len() == 0,
                Some(start) => strs(window@) == strs(order@).subrange(start, order@.len() as int),
            },
        },
{
    let target: Option<String> = match filter {
        None => {
            let mut all: Vec<String> = Vec::new();
            let mut i: usize = 0;
            while i < order.len()
                invariant
                    i <= order@.len(),
                    strs(all@) == strs(order@).subrange(0, i as int),
                decreases order.len() - i,
            {
                let ghost prev = all@;
                all.push(order[i].clone());
                assert(strs(all@) =~= strs(prev).push(order@[i as int]@));
                assert(strs(order@).subrange(0, i + 1) =~= strs(order@).subrange(0, i as int).push(
                    strs(order@)[i as int],
                ));
                i = i + 1;
            }
            assert(strs(order@).subrange(0, order@.len() as int) =~= strs(order@));
            return all;
        },
        Some(f) => {
            if chars_eq(&chars_of(f.as_str()), &chars_of("latest")) {
                match latest {
                    None => None,
                    Some(p) => Some(p.clone()),
                }
            } else {
                Some(f.clone())
            }
        },
    };
    let t = match target {
        None => {
            return Vec::new();
        },
        Some(t) => t,
    };
    let mut start: usize = 0;
    while start < order.len() && !chars_eq(&chars_of(order[start].as_str()), &chars_of(t.as_str()))
        invariant
            start <= order@.len(),
            forall|j: int| 0 <= j < start ==> strs(order@)[j] != t@,
        decreases order.len() - start,
    {
        start = start + 1;
    }
    if start == order.len() {
        proof {
            assert(!exists|i: int| 0 <= i < strs(order@).len() && strs(order@)[i] == t@);
        }
        return Vec::new();
    }
    proof {
        assert(strs(order@)[start as int] == t@);
        let c = choose|i: int| 0 <= i < strs(order@).len() && strs(order@)[i] == t@ && forall|j: int| 0 <= j < i ==> strs(order@)[j] != t@;
        assert(c == start) by {
            if c < start {
            } else if c > start {
                assert(strs(order@)[start as int] != t@);
            }
        }
    }
    let mut window: Vec<String> = Vec::new();
    let mut i: usize = start;
    while i < order.len()
        invariant
            start <= i <= order@.len(),
            strs(window@) == strs(order@).subrange(start as int, i as int),
        decreases order.len() - i,
    {
        let ghost prev = window@;
        window.push(order[i].clone());
        assert(strs(window@) =~= strs(prev).push(order@[i as int]@));
        assert(strs(order@).subrange(start as int, i + 1) =~= strs(order@).subrange(
            start as int,
            i as int,
        ).push(strs(order@)[i as int]));
        i = i + 1;
    }
    window
}

/// The side a team played in a match: blue, red, or neither.
pub fn team_side(blue_team_id: Option<usize>, red_team_id: Option<usize>, team_id: usize) -> (side: Option<bool>)
    ensures
        side == if blue_team_id == Some(team_id) {
            Some(true)
        } else if red_team_id == Some(team_id) {
            Some(false)
        } else {
            None::<bool>
        },
{
    if blue_team_id == Some(team_id) {
        Some(true)
    } else if red_team_id == Some(team_id) {
        Some(false)
    } else {
        None
    }
}

/// Under a profile that validates, the division filter narrows tournament scope only: for
/// solo and combined scopes every match in scope is a candidate.
pub proof fn lemma_division_narrows_tournaments_only(profile: TierProfile, m: MatchScope)
    requires
        profile_error(profile.scope, profile.division, profile.patch_view(), profile.sample) is None,
        profile.scope != GameScope::Tournament,
    ensures
        is_candidate(profile, m) == in_scope(profile, m),
{
}

/// Every selected match is a candidate, and without a patch filter every candidate is
/// selected.
pub proof fn lemma_selection_within_candidates(profile: TierProfile, matches: Seq<MatchScope>, k: int)
    requires
        0 <= k < matches.len(),
    ensures
        is_selected(profile, matches, k) ==> is_candidate(profile, matches[k]),
        profile.patch is None ==> (is_selected(profile, matches, k) == is_candidate(profile, matches[k])),
{
}

} // verus!
