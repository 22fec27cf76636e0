//! Keeping the sandbox's roots in step with the configuration: which roots
//! to drop, which to add, and how failures are reported.

use vstd::prelude::*;
use crate::config::{AppConfig, sandbox_root_list};
use crate::errors::AppError;
use crate::strvec::{copy_str, views};
use crate::text::str_eq;

verus! {

/// Some canonical form among `canonical` equals `c`.
pub open spec fn canonical_has(canonical: Seq<Result<String, String>>, c: Seq<char>) -> bool {
    exists|k: int| 0 <= k < canonical.len() && (#[trigger] canonical[k] matches Ok(s) && s@ == c)
}

/// The current roots to drop: those no desired root resolves to, each once,
/// in the order they first appear.
pub open spec fn roots_to_remove(current: Seq<Seq<char>>, canonical: Seq<Result<String, String>>) -> Seq<Seq<char>>
    decreases current.len(),
{
    if current.len() == 0 {
        Seq::empty()
    } else {
        let r = roots_to_remove(current.drop_last(), canonical);
        let x = current.last();
        if !canonical_has(canonical, x) && !r.contains(x) {
            r.push(x)
        } else {
            r
        }
    }
}

/// The desired roots to add, as configured: those whose canonical form is not a current root.
pub open spec fn roots_to_add(desired: Seq<Seq<char>>, canonical: Seq<Result<String, String>>, current: Seq<Seq<char>>) -> Seq<Seq<char>>
    decreases desired.len(),
{
    if desired.len() == 0 || canonical.len() < desired.len() {
        Seq::empty()
    } else {
        let n = desired.len() - 1;
        let r = roots_to_add(desired.drop_last(), canonical.take(n), current);
        match canonical[n] {
            Ok(c) => if current.contains(c@) {
                r
            } else {
                r.push(desired[n])
            },
            Err(_) => r,
        }
    }
}

/// Message of the error for a root that cannot be resolved.
pub open spec fn cannot_canonicalize(path: Seq<char>, err: Seq<char>) -> Seq<char> {
    "cannot canonicalize '"@ + path + "': "@ + err
}

/// What a sync does: the current roots it drops and the configured roots it adds.
pub struct RootSyncPlan {
    pub remove: Vec<String>,
    pub add: Vec<String>,
}

/// Plans the sync of the sandbox's roots with the configured ones.
/// `current` holds the sandbox's canonical roots; `desired` the configured
/// roots and `canonical`, in the same order, each one's canonical form or
/// the error that resolving it gave. A root that cannot be resolved fails
/// the sync before anything changes.
pub fn plan_root_sync(
    current: &Vec<String>,
    desired: &Vec<String>,
    canonical: &Vec<Result<String, String>>,
) -> (r: Result<RootSyncPlan, AppError>)
    requires
        canonical@.len() == desired@.len(),
    ensures
        r is Ok <==> forall|k: int| 0 <= k < canonical@.len() ==> #[trigger] canonical@[k] is Ok,
        r matches Err(e) ==> exists|k: int|
            0 <= k < canonical@.len() && (#[trigger] canonical@[k] matches Err(m) && e is SystemError
                && e.message() == cannot_canonicalize(desired@[k]@, m@)) && forall|j: int|
                0 <= j < k ==> #[trigger] canonical@[j] is Ok,
        r matches Ok(plan) ==> views(plan.remove@) == roots_to_remove(views(current@), canonical@)
            && views(plan.add@) == roots_to_add(views(desired@), canonical@, views(current@)),
{
    let mut k: usize = 0;
    while k < canonical.len()
        invariant
            k <= canonical@.len(),
            canonical@.len() == desired@.len(),
            forall|j: int| 0 <= j < k ==> #[trigger] canonical@[j] is Ok,
        decreases canonical@.len() - k,
    {
        match &canonical[k] {
            Err(m) => {
                let mut msg = String::from_str("cannot canonicalize '");
                msg.append(desired[k].as_str());
                msg.append("': ");
                msg.append(m.as_str());
                let e = AppError::SystemError(msg);
                assert(canonical@[k as int] matches Err(m) && e.message() == cannot_canonicalize(desired@[k as int]@, m@));
                return Err(e);
            },
            Ok(_) => {},
        }
        k += 1;
    }
    let mut remove: Vec<String> = Vec::new();
    let mut i: usize = 0;
    assert(views(remove@) =~= roots_to_remove(views(current@).take(0), canonical@));
    while i < current.len()
        invariant
            i <= current@.len(),
            views(remove@) == roots_to_remove(views(current@).take(i as int), canonical@),
        decreases current@.len() - i,
    {
        let x = current[i].as_str();
        proof {
            assert(views(current@).take(i + 1).drop_last() =~= views(current@).take(i as int));
            assert(views(current@).take(i + 1).last() == x@);
        }
        let wanted = canonical_contains(canonical, x);
        let seen = list_contains(&remove, x);
        if !wanted && !seen {
            let ghost before = remove@;
            remove.push(copy_str(x));
            assert(views(remove@) =~= views(before).push(x@));
        }
        i += 1;
    }
    assert(views(current@).take(current@.len() as int) =~= views(current@));
    let mut add: Vec<String> = Vec::new();
    let mut j: usize = 0;
    assert(views(add@) =~= roots_to_add(views(desired@).take(0), canonical@.take(0), views(current@)));
    while j < desired.len()
        invariant
            j <= desired@.len(),
            canonical@.len() == desired@.len(),
            views(add@) == roots_to_add(views(desired@).take(j as int), canonical@.take(j as int), views(current@)),
        decreases desired@.len() - j,
    {
        proof {
            assert(views(desired@).take(j + 1).drop_last() =~= views(desired@).take(j as int));
            assert(canonical@.take(j + 1).take(j as int) =~= canonical@.take(j as int));
            assert(canonical@.take(j + 1)[j as int] == canonical@[j as int]);
        }
        match &canonical[j] {
            Ok(c) => {
                if !list_contains(current, c.as_str()) {
                    let ghost before = add@;
                    add.push(copy_str(desired[j].as_str()));
                    assert(views(add@) =~= views(before).push(desired@[j as int]@));
                }
            },
            Err(_) => {},
        }
        j += 1;
    }
    assert(views(desired@).take(desired@.len() as int) =~= views(desired@));
    assert(canonical@.take(canonical@.len() as int) =~= canonical@);
    Ok(RootSyncPlan { remove, add })
}

fn canonical_contains(canonical: &Vec<Result<String, String>>, x: &str) -> (r: bool)
    ensures
        r == canonical_has(canonical@, x@),
{
    let mut k: usize = 0;
    while k < canonical.len()
        invariant
            k <= canonical@.len(),
            forall|j: int| 0 <= j < k ==> !(#[trigger] canonical@[j] matches Ok(s) && s@ == x@),
        decreases canonical@.len() - k,
    {
        match &canonical[k] {
            Ok(s) => {
                if str_eq(s.as_str(), x) {
                    return true;
                }
            },
            Err(_) => {},
        }
        k += 1;
    }
    false
}

fn list_contains(v: &Vec<String>, x: &str) -> (r: bool)
    ensures
        r == views(v@).contains(x@),
{
    let mut k: usize = 0;
    while k < v.len()
        invariant
            k <= v@.len(),
            forall|j: int| 0 <= j < k ==> #[trigger] v@[j]@ != x@,
        decreases v@.len() - k,
    {
        if str_eq(v[k].as_str(), x) {
            assert(views(v@)[k as int] == x@);
            return true;
        }
        k += 1;
    }
    proof {
        if views(v@).contains(x@) {
            let j = choose|j: int| 0 <= j < views(v@).len() && views(v@)[j] == x@;
            assert(v@[j]@ == x@);
        }
    }
    false
}

/// How a sync that went through ends: in the error of the last root change
/// that failed, if any failed.
pub open spec fn last_failure(outcomes: Seq<Option<String>>) -> Option<Seq<char>>
    decreases outcomes.len(),
{
    if outcomes.len() == 0 {
        None
    } else {
        match outcomes.last() {
            Some(e) => Some(e@),
            None => last_failure(outcomes.drop_last()),
        }
    }
}

/// Ends a sync from the outcomes of its root changes, in the order they
/// were made (the error text of each change that failed).
pub fn finish_root_sync(outcomes: &Vec<Option<String>>) -> (r: Result<(), AppError>)
    ensures
        r is Ok <==> last_failure(outcomes@) is None,
        r matches Err(e) ==> e is SystemError && Some(e.message()) == last_failure(outcomes@),
{
    let mut k = outcomes.len();
    assert(outcomes@.take(k as int) =~= outcomes@);
    while k > 0
        invariant
            k <= outcomes@.len(),
            last_failure(outcomes@) == last_failure(outcomes@.take(k as int)),
        decreases k,
    {
        proof {
            assert(outcomes@.take(k as int).drop_last() =~= outcomes@.take(k - 1));
            assert(outcomes@.take(k as int).last() == outcomes@[k - 1]);
        }
        match &outcomes[k - 1] {
            Some(e) => {
                return Err(AppError::SystemError(copy_str(e.as_str())));
            },
            None => {},
        }
        k -= 1;
    }
    assert(outcomes@.take(k as int) =~= Seq::<Option<String>>::empty());
    Ok(())
}

/// Plans the sync of a shared sandbox's roots with `config`: nothing to do
/// when no sandbox is shared yet (`current` absent); otherwise the plan for
/// the configured roots (the sandbox directory, then the extra roots) whose
/// canonical forms are `canonical`.
pub fn sync_sandbox_roots(
    current: Option<&Vec<String>>,
    config: &AppConfig,
    canonical: &Vec<Result<String, String>>,
) -> (r: Result<Option<RootSyncPlan>, AppError>)
    requires
        canonical@.len() == sandbox_root_list(*config).len(),
    ensures
        current is None ==> r == Ok::<Option<RootSyncPlan>, AppError>(None),
        current matches Some(cur) ==> {
            &&& (r is Ok <==> forall|k: int| 0 <= k < canonical@.len() ==> #[trigger] canonical@[k] is Ok)
            &&& (r matches Err(e) ==> exists|k: int|
                0 <= k < canonical@.len() && (#[trigger] canonical@[k] matches Err(m) && e is SystemError
                    && e.message() == cannot_canonicalize(sandbox_root_list(*config)[k], m@)) && forall|j: int|
                    0 <= j < k ==> #[trigger] canonical@[j] is Ok)
            &&& (r matches Ok(plan) ==> plan matches Some(p) && views(p.remove@) == roots_to_remove(
                views(cur@),
                canonical@,
            ) && views(p.add@) == roots_to_add(sandbox_root_list(*config), canonical@, views(cur@)))
        },
{
    match current {
        None => Ok(None),
        Some(cur) => {
            let desired = config.list_sandbox_roots();
            let plan = plan_root_sync(cur, &desired, canonical)?;
            Ok(Some(plan))
        },
    }
}


/// A current root that no configured root resolves to is dropped.
pub proof fn law_sync_removes_unwanted_root(
    current: Seq<Seq<char>>,
    canonical: Seq<Result<String, String>>,
    i: int,
)
    requires
        0 <= i < current.len(),
        !canonical_has(canonical, current[i]),
    ensures
        roots_to_remove(current, canonical).contains(current[i]),
    decreases current.len(),
{
    let x = current[i];
    let r = roots_to_remove(current.drop_last(), canonical);
    if i == current.len() - 1 {
        if r.contains(x) {
        } else {
            assert(roots_to_remove(current, canonical) == r.push(x));
            assert(r.push(x)[r.len() as int] == x);
        }
    } else {
        law_sync_removes_unwanted_root(current.drop_last(), canonical, i);
        let j = choose|j: int| 0 <= j < r.len() && r[j] == x;
        lemma_remove_grows(current, canonical);
        assert(roots_to_remove(current, canonical)[j] == x);
    }
}

proof fn lemma_remove_grows(current: Seq<Seq<char>>, canonical: Seq<Result<String, String>>)
    requires
        current.len() > 0,
    ensures
        roots_to_remove(current.drop_last(), canonical).is_prefix_of(roots_to_remove(current, canonical)),
{
    let r = roots_to_remove(current.drop_last(), canonical);
    let x = current.last();
    if !canonical_has(canonical, x) && !r.contains(x) {
        assert(r.push(x).take(r.len() as int) =~= r);
    } else {
        assert(r.take(r.len() as int) =~= r);
    }
}

/// Only current roots that no configured root resolves to are dropped.
pub proof fn law_sync_keeps_wanted_roots(current: Seq<Seq<char>>, canonical: Seq<Result<String, String>>, x: Seq<char>)
    requires
        roots_to_remove(current, canonical).contains(x),
    ensures
        current.contains(x),
        !canonical_has(canonical, x),
    decreases current.len(),
{
    let r = roots_to_remove(current.drop_last(), canonical);
    if current.len() > 0 {
        let y = current.last();
        if !canonical_has(canonical, y) && !r.contains(y) && x == y {
            assert(current[current.len() - 1] == x);
        } else {
            if !canonical_has(canonical, y) && !r.contains(y) {
                let j = choose|j: int| 0 <= j < r.push(y).len() && r.push(y)[j] == x;
                assert(r[j] == x);
            }
            law_sync_keeps_wanted_roots(current.drop_last(), canonical, x);
            let j = choose|j: int| 0 <= j < current.drop_last().len() && current.drop_last()[j] == x;
            assert(current[j] == x);
        }
    }
}

/// A sandbox whose roots are exactly the canonical forms of the configured
/// roots is in step: a second sync changes nothing.
pub proof fn law_sync_idempotent(
    current: Seq<Seq<char>>,
    desired: Seq<Seq<char>>,
    canonical: Seq<Result<String, String>>,
)
    requires
        canonical.len() == desired.len(),
        forall|k: int| 0 <= k < canonical.len() ==> (#[trigger] canonical[k] matches Ok(c) && current.contains(c@)),
        forall|i: int| 0 <= i < current.len() ==> canonical_has(canonical, #[trigger] current[i]),
    ensures
        roots_to_remove(current, canonical).len() == 0,
        roots_to_add(desired, canonical, current).len() == 0,
{
    lemma_nothing_to_remove(current, canonical);
    lemma_nothing_to_add(desired, canonical, current);
}

proof fn lemma_nothing_to_remove(current: Seq<Seq<char>>, canonical: Seq<Result<String, String>>)
    requires
        forall|i: int| 0 <= i < current.len() ==> canonical_has(canonical, #[trigger] current[i]),
    ensures
        roots_to_remove(current, canonical).len() == 0,
    decreases current.len(),
{
    if current.len() > 0 {
        assert forall|i: int| 0 <= i < current.drop_last().len() implies canonical_has(
            canonical,
            #[trigger] current.drop_last()[i],
        ) by {
            assert(current.drop_last()[i] == current[i]);
        }
        lemma_nothing_to_remove(current.drop_last(), canonical);
        assert(canonical_has(canonical, current[current.len() - 1]));
    }
}

proof fn lemma_nothing_to_add(
    desired: Seq<Seq<char>>,
    canonical: Seq<Result<String, String>>,
    current: Seq<Seq<char>>,
)
    requires
        canonical.len() == desired.len(),
        forall|k: int| 0 <= k < canonical.len() ==> (#[trigger] canonical[k] matches Ok(c) && current.contains(c@)),
    ensures
        roots_to_add(desired, canonical, current).len() == 0,
    decreases desired.len(),
{
    if desired.len() > 0 {
        let n = desired.len() - 1;
        let c2 = canonical.take(n);
        assert forall|k: int| 0 <= k < c2.len() implies (#[trigger] c2[k] matches Ok(c) && current.contains(c@)) by {
            assert(c2[k] == canonical[k]);
        }
        lemma_nothing_to_add(desired.drop_last(), c2, current);
        assert(canonical[n] matches Ok(c) && current.contains(c@));
    }
}

/// A configured root whose canonical form is not a current root is added, as configured.
pub proof fn law_sync_adds_new_root(
    desired: Seq<Seq<char>>,
    canonical: Seq<Result<String, String>>,
    current: Seq<Seq<char>>,
    k: int,
)
    requires
        canonical.len() == desired.len(),
        0 <= k < desired.len(),
        canonical[k] matches Ok(c) && !current.contains(c@),
    ensures
        roots_to_add(desired, canonical, current).contains(desired[k]),
    decreases desired.len(),
{
    let n = desired.len() - 1;
    let r = roots_to_add(desired.drop_last(), canonical.take(n), current);
    if k == n {
        assert(roots_to_add(desired, canonical, current) == r.push(desired[k]));
        assert(r.push(desired[k])[r.len() as int] == desired[k]);
    } else {
        assert(canonical.take(n)[k] == canonical[k]);
        law_sync_adds_new_root(desired.drop_last(), canonical.take(n), current, k);
        let j = choose|j: int| 0 <= j < r.len() && r[j] == desired.drop_last()[k];
        let full = roots_to_add(desired, canonical, current);
        assert(full == r || full == r.push(desired[n]));
        assert(full[j] == desired[k]);
    }
}

/// `after` holds the roots once a sync's plan is carried out: the current
/// roots it does not drop, and the canonical form of each configured root it
/// adds (the sandbox resolves a root as it adds it).
pub open spec fn sync_applied(
    current: Seq<Seq<char>>,
    desired: Seq<Seq<char>>,
    canonical: Seq<Result<String, String>>,
    after: Seq<Seq<char>>,
) -> bool {
    forall|x: Seq<char>|
        #![trigger after.contains(x)]
        after.contains(x) <==> ((current.contains(x) && !roots_to_remove(current, canonical).contains(x))
            || exists|k: int|
            0 <= k < canonical.len() && (#[trigger] canonical[k] matches Ok(c) && c@ == x)
                && roots_to_add(desired, canonical, current).contains(desired[k]))
}

/// A sync that succeeded leaves the sandbox in step: synced again with the
/// same configuration (every root resolving as before), nothing is dropped
/// and nothing is added.
pub proof fn law_sync_twice_changes_nothing(
    current: Seq<Seq<char>>,
    desired: Seq<Seq<char>>,
    canonical: Seq<Result<String, String>>,
    after: Seq<Seq<char>>,
)
    requires
        canonical.len() == desired.len(),
        forall|k: int| 0 <= k < canonical.len() ==> #[trigger] canonical[k] is Ok,
        sync_applied(current, desired, canonical, after),
    ensures
        roots_to_remove(after, canonical).len() == 0,
        roots_to_add(desired, canonical, after).len() == 0,
{
    let rm = roots_to_remove(current, canonical);
    let add = roots_to_add(desired, canonical, current);
    assert forall|k: int| 0 <= k < canonical.len() implies (#[trigger] canonical[k] matches Ok(c)
        && after.contains(c@)) by {
        let c = canonical[k]->Ok_0;
        assert(canonical_has(canonical, c@));
        if current.contains(c@) {
            if rm.contains(c@) {
                law_sync_keeps_wanted_roots(current, canonical, c@);
            }
        } else {
            law_sync_adds_new_root(desired, canonical, current, k);
        }
        assert(after.contains(c@));
    }
    assert forall|i: int| 0 <= i < after.len() implies canonical_has(canonical, #[trigger] after[i]) by {
        let x = after[i];
        assert(after.contains(x));
        if current.contains(x) && !rm.contains(x) {
            let j = choose|j: int| 0 <= j < current.len() && current[j] == x;
            if !canonical_has(canonical, x) {
                law_sync_removes_unwanted_root(current, canonical, j);
            }
        } else {
            let k = choose|k: int|
                0 <= k < canonical.len() && (#[trigger] canonical[k] matches Ok(c) && c@ == x)
                    && add.contains(desired[k]);
            assert(canonical[k] matches Ok(c) && c@ == x);
        }
    }
    law_sync_idempotent(after, desired, canonical);
}

} // verus!
