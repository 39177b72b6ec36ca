//! The laws of the reconciliation engine, proved once and for all inputs:
//! idempotence, the bootstrap no-op, publish ordering, reply filtering, reply
//! linking, the content-warning rewrite, the video skip, and per-post failure
//! isolation.

use vstd::prelude::*;

use crate::model::StatusView;
use crate::model::MediaAttachmentView;
use crate::reconcile::{
    dest_of, spec_attachments_to_upload, spec_attachments_to_upload_upto, spec_is_self_reply,
    spec_media_ids, spec_media_ids_upto, spec_media_opt, spec_video,
    spec_publish_text, spec_reconcile, spec_reply_target, spec_request, spec_run, spec_targets,
    PostOutcomeView,
    PublishAttemptView,
};
use crate::sync_status::spec_bootstrap;

verus! {

/// No post whose id the prior state contains is ever selected.
proof fn lemma_targets_all_synced(
    posts: Seq<StatusView>,
    prior: Map<Seq<char>, Seq<char>>,
    n: int,
)
    requires
        forall|i: int| 0 <= i < posts.len() ==> prior.contains_key(#[trigger] posts[i].id),
        n <= posts.len(),
    ensures
        spec_targets(posts, prior, n) =~= Seq::<int>::empty(),
    decreases n,
{
    if n > 0 {
        lemma_targets_all_synced(posts, prior, n - 1);
    }
}

/// Idempotence: when the prior state already contains every fetched post id,
/// a run publishes nothing and returns the prior state unchanged.
pub proof fn lemma_idempotence(
    posts: Seq<StatusView>,
    outcomes: Seq<PostOutcomeView>,
    prior: Map<Seq<char>, Seq<char>>,
)
    requires
        forall|i: int| 0 <= i < posts.len() ==> prior.contains_key(#[trigger] posts[i].id),
    ensures
        spec_reconcile(posts, outcomes, prior).state =~= prior,
        spec_reconcile(posts, outcomes, prior).attempts =~= Seq::<PublishAttemptView>::empty(),
{
    if prior.dom() =~= Set::<Seq<char>>::empty() {
        if posts.len() > 0 {
            assert(prior.contains_key(posts[0].id));
        }
        assert(posts.len() == 0);
        assert(spec_bootstrap(posts) =~= prior);
    } else {
        lemma_targets_all_synced(posts, prior, posts.len() as int);
    }
}

proof fn lemma_bootstrap_state(posts: Seq<StatusView>)
    ensures
        forall|i: int| 0 <= i < posts.len() ==> spec_bootstrap(posts).contains_key(
            #[trigger] posts[i].id) && spec_bootstrap(posts)[posts[i].id] == Seq::<char>::empty(),
        forall|k: Seq<char>| spec_bootstrap(posts).contains_key(k) ==> exists|i: int|
            0 <= i < posts.len() && #[trigger] posts[i].id == k,
    decreases posts.len(),
{
    if posts.len() > 0 {
        lemma_bootstrap_state(posts.drop_last());
        assert forall|i: int| 0 <= i < posts.len() implies spec_bootstrap(posts).contains_key(
            #[trigger] posts[i].id) && spec_bootstrap(posts)[posts[i].id]
            == Seq::<char>::empty() by {
            if i < posts.len() - 1 && posts[i].id != posts.last().id {
                assert(posts.drop_last()[i] == posts[i]);
            }
        }
        assert forall|k: Seq<char>| spec_bootstrap(posts).contains_key(k) implies exists|i: int|
            0 <= i < posts.len() && #[trigger] posts[i].id == k by {
            if k == posts.last().id {
                assert(posts[posts.len() - 1].id == k);
            } else {
                assert(spec_bootstrap(posts.drop_last()).contains_key(k));
                let i = choose|i: int| 0 <= i < posts.drop_last().len()
                    && #[trigger] posts.drop_last()[i].id == k;
                assert(posts.drop_last()[i] == posts[i]);
                assert(posts[i].id == k);
            }
        }
    }
}

/// Bootstrap no-op: on an empty prior state a run publishes nothing, and the
/// returned state maps exactly the fetched post ids, each to the empty
/// destination id.
pub proof fn lemma_bootstrap(
    posts: Seq<StatusView>,
    outcomes: Seq<PostOutcomeView>,
    prior: Map<Seq<char>, Seq<char>>,
)
    requires
        prior.dom() =~= Set::<Seq<char>>::empty(),
    ensures
        spec_reconcile(posts, outcomes, prior).attempts =~= Seq::<PublishAttemptView>::empty(),
        forall|i: int| 0 <= i < posts.len() ==> spec_reconcile(posts, outcomes,
            prior).state.contains_key(#[trigger] posts[i].id) && spec_reconcile(posts, outcomes,
            prior).state[posts[i].id] == Seq::<char>::empty(),
        forall|k: Seq<char>| spec_reconcile(posts, outcomes, prior).state.contains_key(k)
            ==> exists|i: int| 0 <= i < posts.len() && #[trigger] posts[i].id == k,
{
    lemma_bootstrap_state(posts);
}

/// The ids a run attempts to publish: the ids of the eligible targets, in
/// processing order. This does not depend on what the destination answers.
pub open spec fn spec_attempt_ids(posts: Seq<StatusView>, targets: Seq<int>) -> Seq<Seq<char>>
    decreases targets.len(),
{
    if targets.len() == 0 {
        Seq::empty()
    } else if spec_is_self_reply(posts[targets.first()]) {
        seq![posts[targets.first()].id] + spec_attempt_ids(posts, targets.drop_first())
    } else {
        spec_attempt_ids(posts, targets.drop_first())
    }
}

/// A run attempts exactly the eligible targets, in order, whatever the
/// destination answers.
pub proof fn lemma_run_attempt_ids(
    posts: Seq<StatusView>,
    outcomes: Seq<PostOutcomeView>,
    targets: Seq<int>,
    state: Map<Seq<char>, Seq<char>>,
)
    ensures
        spec_run(posts, outcomes, targets, state).attempts.map_values(
            |a: PublishAttemptView| a.post_id) =~= spec_attempt_ids(posts, targets),
    decreases targets.len(),
{
    if targets.len() > 0 {
        let i = targets.first();
        let s = posts[i];
        if spec_is_self_reply(s) {
            let dest = dest_of(outcomes[i].publish);
            lemma_run_attempt_ids(posts, outcomes, targets.drop_first(), state.insert(s.id, dest));
            let head = spec_run(posts, outcomes, targets, state).attempts.first();
            assert(spec_run(posts, outcomes, targets, state).attempts.map_values(
                |a: PublishAttemptView| a.post_id) =~= seq![head.post_id] + spec_run(posts,
                outcomes, targets.drop_first(), state.insert(s.id, dest)).attempts.map_values(
                |a: PublishAttemptView| a.post_id));
        } else {
            lemma_run_attempt_ids(posts, outcomes, targets.drop_first(), state.insert(s.id,
                Seq::empty()));
        }
    }
}

/// The selected targets, characterized: strictly descending indices (oldest
/// post first), exactly those whose id the prior state does not contain.
pub proof fn lemma_targets_characterized(
    posts: Seq<StatusView>,
    prior: Map<Seq<char>, Seq<char>>,
    n: int,
)
    requires
        n <= posts.len(),
    ensures
        forall|a: int, b: int| 0 <= a < b < spec_targets(posts, prior, n).len()
            ==> #[trigger] spec_targets(posts, prior, n)[a] > #[trigger] spec_targets(posts,
            prior, n)[b],
        forall|j: int| 0 <= j < spec_targets(posts, prior, n).len() ==> 0 <= #[trigger] spec_targets(
            posts, prior, n)[j] < n && !prior.contains_key(posts[spec_targets(posts, prior,
            n)[j]].id),
        forall|i: int| 0 <= i < n && !prior.contains_key(#[trigger] posts[i].id) ==> spec_targets(
            posts, prior, n).contains(i),
    decreases n,
{
    if n > 0 {
        lemma_targets_characterized(posts, prior, n - 1);
        let t = spec_targets(posts, prior, n);
        let rest = spec_targets(posts, prior, n - 1);
        if !prior.contains_key(posts[n - 1].id) {
            assert forall|j: int| 0 <= j < t.len() implies 0 <= #[trigger] t[j] < n
                && !prior.contains_key(posts[t[j]].id) by {
                if j > 0 {
                    assert(t[j] == rest[j - 1]);
                }
            }
            assert forall|a: int, b: int| 0 <= a < b < t.len() implies #[trigger] t[a]
                > #[trigger] t[b] by {
                assert(t[b] == rest[b - 1]);
                if a > 0 {
                    assert(t[a] == rest[a - 1]);
                }
            }
            assert forall|i: int| 0 <= i < n && !prior.contains_key(#[trigger] posts[i].id)
                implies t.contains(i) by {
                if i == n - 1 {
                    assert(t[0] == i);
                } else {
                    let j = choose|j: int| 0 <= j < rest.len() && rest[j] == i;
                    assert(t[j + 1] == i);
                }
            }
        } else {
            assert(t == rest);
            assert forall|i: int| 0 <= i < n && !prior.contains_key(#[trigger] posts[i].id)
                implies t.contains(i) by {
                let j = choose|j: int| 0 <= j < rest.len() && rest[j] == i;
                assert(t[j] == i);
            }
        }
    }
}

/// Publish ordering and the at-most-once guarantee: the attempts of a run are
/// exactly the eligible unsynced posts, oldest first, and no attempted id is
/// one the prior state already contains.
pub proof fn lemma_publish_order(
    posts: Seq<StatusView>,
    outcomes: Seq<PostOutcomeView>,
    prior: Map<Seq<char>, Seq<char>>,
)
    requires
        !(prior.dom() =~= Set::<Seq<char>>::empty()),
    ensures
        spec_reconcile(posts, outcomes, prior).attempts.map_values(
            |a: PublishAttemptView| a.post_id) == spec_attempt_ids(posts, spec_targets(posts,
            prior, posts.len() as int)),
        forall|j: int| 0 <= j < spec_reconcile(posts, outcomes, prior).attempts.len()
            ==> !prior.contains_key(
            #[trigger] spec_reconcile(posts, outcomes, prior).attempts[j].post_id),
{
    let n = posts.len() as int;
    let t = spec_targets(posts, prior, n);
    lemma_run_attempt_ids(posts, outcomes, t, prior);
    lemma_targets_characterized(posts, prior, n);
    lemma_attempt_ids_unsynced(posts, prior, t);
    let attempts = spec_reconcile(posts, outcomes, prior).attempts;
    let ids = attempts.map_values(|a: PublishAttemptView| a.post_id);
    assert forall|j: int| 0 <= j < attempts.len() implies !prior.contains_key(
        #[trigger] attempts[j].post_id) by {
        assert(ids[j] == attempts[j].post_id);
    }
}

/// Every attempted id belongs to a target, so the prior state does not
/// contain it.
proof fn lemma_attempt_ids_unsynced(
    posts: Seq<StatusView>,
    prior: Map<Seq<char>, Seq<char>>,
    targets: Seq<int>,
)
    requires
        forall|j: int| 0 <= j < targets.len() ==> !prior.contains_key(
            posts[#[trigger] targets[j]].id),
    ensures
        forall|j: int| 0 <= j < spec_attempt_ids(posts, targets).len() ==> !prior.contains_key(
            #[trigger] spec_attempt_ids(posts, targets)[j]),
    decreases targets.len(),
{
    if targets.len() > 0 {
        assert forall|j: int| 0 <= j < targets.drop_first().len() implies !prior.contains_key(
            posts[#[trigger] targets.drop_first()[j]].id) by {
            assert(targets.drop_first()[j] == targets[j + 1]);
        }
        lemma_attempt_ids_unsynced(posts, prior, targets.drop_first());
        let ids = spec_attempt_ids(posts, targets);
        let rest = spec_attempt_ids(posts, targets.drop_first());
        if spec_is_self_reply(posts[targets.first()]) {
            assert forall|j: int| 0 <= j < ids.len() implies !prior.contains_key(
                #[trigger] ids[j]) by {
                if j > 0 {
                    assert(ids[j] == rest[j - 1]);
                }
            }
        }
    }
}


/// A run never touches a state entry whose key no target id matches.
proof fn lemma_run_state_other(
    posts: Seq<StatusView>,
    outcomes: Seq<PostOutcomeView>,
    targets: Seq<int>,
    state: Map<Seq<char>, Seq<char>>,
    k: Seq<char>,
)
    requires
        forall|j: int| 0 <= j < targets.len() ==> posts[#[trigger] targets[j]].id != k,
    ensures
        spec_run(posts, outcomes, targets, state).state.contains_key(k) == state.contains_key(k),
        state.contains_key(k) ==> spec_run(posts, outcomes, targets, state).state[k] == state[k],
    decreases targets.len(),
{
    if targets.len() > 0 {
        let i = targets.first();
        assert(posts[targets[0]].id != k);
        assert forall|j: int| 0 <= j < targets.drop_first().len() implies posts[
            #[trigger] targets.drop_first()[j]].id != k by {
            assert(targets.drop_first()[j] == targets[j + 1]);
        }
        if spec_is_self_reply(posts[i]) {
            lemma_run_state_other(posts, outcomes, targets.drop_first(), state.insert(posts[i].id,
                dest_of(outcomes[i].publish)), k);
        } else {
            lemma_run_state_other(posts, outcomes, targets.drop_first(), state.insert(posts[i].id,
                Seq::empty()), k);
        }
    }
}

/// What the final state records at a target's id, when no other target shares
/// that id: the destination id of its publish if it was eligible, the empty
/// id otherwise.
proof fn lemma_run_state_at(
    posts: Seq<StatusView>,
    outcomes: Seq<PostOutcomeView>,
    targets: Seq<int>,
    state: Map<Seq<char>, Seq<char>>,
    j: int,
)
    requires
        0 <= j < targets.len(),
        forall|j2: int| 0 <= j2 < targets.len() && j2 != j ==> posts[#[trigger] targets[j2]].id
            != posts[targets[j]].id,
    ensures
        spec_run(posts, outcomes, targets, state).state.contains_key(posts[targets[j]].id),
        spec_run(posts, outcomes, targets, state).state[posts[targets[j]].id] == if
            spec_is_self_reply(posts[targets[j]]) {
            dest_of(outcomes[targets[j]].publish)
        } else {
            Seq::<char>::empty()
        },
    decreases targets.len(),
{
    let i = targets.first();
    let id = posts[targets[j]].id;
    if j == 0 {
        let v = if spec_is_self_reply(posts[i]) {
            dest_of(outcomes[i].publish)
        } else {
            Seq::<char>::empty()
        };
        let state1 = state.insert(id, v);
        assert forall|j2: int| 0 <= j2 < targets.drop_first().len() implies posts[
            #[trigger] targets.drop_first()[j2]].id != id by {
            assert(targets.drop_first()[j2] == targets[j2 + 1]);
        }
        lemma_run_state_other(posts, outcomes, targets.drop_first(), state1, id);
    } else {
        assert forall|j2: int| 0 <= j2 < targets.drop_first().len() && j2 != j - 1 implies posts[
            #[trigger] targets.drop_first()[j2]].id != posts[targets.drop_first()[j - 1]].id by {
            assert(targets.drop_first()[j2] == targets[j2 + 1]);
            assert(targets.drop_first()[j - 1] == targets[j]);
        }
        assert(targets.drop_first()[j - 1] == targets[j]);
        if spec_is_self_reply(posts[i]) {
            lemma_run_state_at(posts, outcomes, targets.drop_first(), state.insert(posts[i].id,
                dest_of(outcomes[i].publish)), j - 1);
        } else {
            lemma_run_state_at(posts, outcomes, targets.drop_first(), state.insert(posts[i].id,
                Seq::empty()), j - 1);
        }
    }
}

/// Every attempted id is the id of some eligible target.
proof fn lemma_attempt_ids_members(posts: Seq<StatusView>, targets: Seq<int>, j: int)
    requires
        0 <= j < spec_attempt_ids(posts, targets).len(),
    ensures
        exists|jt: int| 0 <= jt < targets.len() && posts[#[trigger] targets[jt]].id
            == spec_attempt_ids(posts, targets)[j] && spec_is_self_reply(posts[targets[jt]]),
    decreases targets.len(),
{
    let ids = spec_attempt_ids(posts, targets);
    let rest = spec_attempt_ids(posts, targets.drop_first());
    let shift: int = if spec_is_self_reply(posts[targets.first()]) {
        1
    } else {
        0
    };
    if shift == 1 && j == 0 {
        assert(0 <= 0 < targets.len() && posts[targets[0]].id == ids[0] && spec_is_self_reply(
            posts[targets[0]]));
    } else {
        assert(ids[j] == rest[j - shift]);
        lemma_attempt_ids_members(posts, targets.drop_first(), j - shift);
        let jt = choose|jt: int| 0 <= jt < targets.drop_first().len() && posts[
            #[trigger] targets.drop_first()[jt]].id == rest[j - shift] && spec_is_self_reply(
            posts[targets.drop_first()[jt]]);
        assert(targets.drop_first()[jt] == targets[jt + 1]);
        assert(0 <= jt + 1 < targets.len() && posts[targets[jt + 1]].id == ids[j]
            && spec_is_self_reply(posts[targets[jt + 1]]));
    }
}

/// An eligible target's id is among the attempted ids.
proof fn lemma_attempt_ids_complete(posts: Seq<StatusView>, targets: Seq<int>, j: int)
    requires
        0 <= j < targets.len(),
        spec_is_self_reply(posts[targets[j]]),
    ensures
        spec_attempt_ids(posts, targets).contains(posts[targets[j]].id),
    decreases targets.len(),
{
    let ids = spec_attempt_ids(posts, targets);
    let rest = spec_attempt_ids(posts, targets.drop_first());
    if j == 0 {
        assert(ids[0] == posts[targets[0]].id);
    } else {
        assert(targets.drop_first()[j - 1] == targets[j]);
        lemma_attempt_ids_complete(posts, targets.drop_first(), j - 1);
        let jj = choose|jj: int| 0 <= jj < rest.len() && rest[jj] == posts[targets[j]].id;
        if spec_is_self_reply(posts[targets.first()]) {
            assert(ids[jj + 1] == rest[jj]);
        } else {
            assert(ids[jj] == rest[jj]);
        }
    }
}

/// Reply filtering: a post that replies to another account is never
/// published — no attempt of the run carries its id — yet it is handled: when
/// it was unsynced, the returned state maps its id to the empty destination
/// id. Post ids are assumed pairwise distinct.
pub proof fn lemma_reply_filtering(
    posts: Seq<StatusView>,
    outcomes: Seq<PostOutcomeView>,
    prior: Map<Seq<char>, Seq<char>>,
    i: int,
)
    requires
        !(prior.dom() =~= Set::<Seq<char>>::empty()),
        0 <= i < posts.len(),
        !spec_is_self_reply(posts[i]),
        forall|a: int, b: int| 0 <= a < b < posts.len() ==> posts[a].id != posts[b].id,
    ensures
        forall|j: int| 0 <= j < spec_reconcile(posts, outcomes, prior).attempts.len()
            ==> #[trigger] spec_reconcile(posts, outcomes, prior).attempts[j].post_id
            != posts[i].id,
        spec_reconcile(posts, outcomes, prior).state.contains_key(posts[i].id),
        !prior.contains_key(posts[i].id) ==> spec_reconcile(posts, outcomes,
            prior).state[posts[i].id] == Seq::<char>::empty(),
{
    let n = posts.len() as int;
    let t = spec_targets(posts, prior, n);
    lemma_targets_characterized(posts, prior, n);
    lemma_run_attempt_ids(posts, outcomes, t, prior);
    let attempts = spec_reconcile(posts, outcomes, prior).attempts;
    let ids = attempts.map_values(|a: PublishAttemptView| a.post_id);
    assert forall|j: int| 0 <= j < attempts.len() implies #[trigger] attempts[j].post_id
        != posts[i].id by {
        assert(ids[j] == attempts[j].post_id);
        if ids[j] == posts[i].id {
            lemma_attempt_ids_members(posts, t, j);
            let jt = choose|jt: int| 0 <= jt < t.len() && posts[#[trigger] t[jt]].id == ids[j]
                && spec_is_self_reply(posts[t[jt]]);
            if t[jt] < i {
                assert(posts[t[jt]].id != posts[i].id);
            } else if t[jt] > i {
                assert(posts[i].id != posts[t[jt]].id);
            }
        }
    }
    if !prior.contains_key(posts[i].id) {
        assert(t.contains(i));
        let jt = choose|jt: int| 0 <= jt < t.len() && t[jt] == i;
        assert forall|j2: int| 0 <= j2 < t.len() && j2 != jt implies posts[#[trigger] t[j2]].id
            != posts[t[jt]].id by {
            if j2 < jt {
                assert(t[j2] > t[jt]);
                assert(posts[t[jt]].id != posts[t[j2]].id);
            } else {
                assert(t[jt] > t[j2]);
                assert(posts[t[j2]].id != posts[t[jt]].id);
            }
        }
        lemma_run_state_at(posts, outcomes, t, prior, jt);
    } else {
        assert forall|j2: int| 0 <= j2 < t.len() implies posts[#[trigger] t[j2]].id
            != posts[i].id by {
            assert(!prior.contains_key(posts[t[j2]].id));
            if t[j2] < i {
                assert(posts[t[j2]].id != posts[i].id);
            } else if t[j2] > i {
                assert(posts[i].id != posts[t[j2]].id);
            }
        }
        lemma_run_state_other(posts, outcomes, t, prior, posts[i].id);
    }
}


/// Within a run, a published reply whose parent id the working state maps to
/// `da` — and whose parent id no target overwrites — carries `Some(da)` as its
/// reply target.
proof fn lemma_run_reply_of(
    posts: Seq<StatusView>,
    outcomes: Seq<PostOutcomeView>,
    targets: Seq<int>,
    state: Map<Seq<char>, Seq<char>>,
    jb: int,
    ka: Seq<char>,
    da: Seq<char>,
)
    requires
        0 <= jb < targets.len(),
        spec_is_self_reply(posts[targets[jb]]),
        posts[targets[jb]].in_reply_to_id == Some(ka),
        state.contains_key(ka),
        state[ka] == da,
        forall|j: int| 0 <= j < targets.len() ==> posts[#[trigger] targets[j]].id != ka,
        forall|j: int| 0 <= j < targets.len() && j != jb ==> posts[#[trigger] targets[j]].id
            != posts[targets[jb]].id,
    ensures
        exists|j: int| 0 <= j < spec_run(posts, outcomes, targets, state).attempts.len()
            && #[trigger] spec_run(posts, outcomes, targets, state).attempts[j].post_id
            == posts[targets[jb]].id,
        forall|j: int| 0 <= j < spec_run(posts, outcomes, targets, state).attempts.len()
            && #[trigger] spec_run(posts, outcomes, targets, state).attempts[j].post_id
            == posts[targets[jb]].id ==> spec_run(posts, outcomes, targets,
            state).attempts[j].request.reply_to == Some(da),
    decreases targets.len(),
{
    let i = targets.first();
    let run = spec_run(posts, outcomes, targets, state);
    if jb == 0 {
        let dest = dest_of(outcomes[i].publish);
        let state1 = state.insert(posts[i].id, dest);
        let rest = spec_run(posts, outcomes, targets.drop_first(), state1);
        assert(run.attempts[0].post_id == posts[targets[0]].id);
        assert(run.attempts[0].request.reply_to == spec_reply_target(posts[i], state));
        assert(run.attempts[0].request.reply_to == Some(da));
        lemma_run_attempt_ids(posts, outcomes, targets.drop_first(), state1);
        let rest_ids = rest.attempts.map_values(|a: PublishAttemptView| a.post_id);
        assert forall|j: int| 0 <= j < run.attempts.len() && #[trigger] run.attempts[j].post_id
            == posts[targets[0]].id implies run.attempts[j].request.reply_to == Some(da) by {
            if j > 0 {
                assert(run.attempts[j] == rest.attempts[j - 1]);
                assert(rest_ids[j - 1] == rest.attempts[j - 1].post_id);
                lemma_attempt_ids_members(posts, targets.drop_first(), j - 1);
                let jt = choose|jt: int| 0 <= jt < targets.drop_first().len() && posts[
                    #[trigger] targets.drop_first()[jt]].id == spec_attempt_ids(posts,
                    targets.drop_first())[j - 1] && spec_is_self_reply(
                    posts[targets.drop_first()[jt]]);
                assert(targets.drop_first()[jt] == targets[jt + 1]);
                assert(posts[targets[jt + 1]].id != posts[targets[0]].id);
                assert(false);
            }
        }
    } else {
        let (v, state1) = if spec_is_self_reply(posts[i]) {
            (dest_of(outcomes[i].publish), state.insert(posts[i].id, dest_of(
                outcomes[i].publish)))
        } else {
            (Seq::<char>::empty(), state.insert(posts[i].id, Seq::<char>::empty()))
        };
        assert(posts[targets[0]].id != ka);
        assert(state1.contains_key(ka) && state1[ka] == da);
        assert(targets.drop_first()[jb - 1] == targets[jb]);
        assert forall|j: int| 0 <= j < targets.drop_first().len() implies posts[
            #[trigger] targets.drop_first()[j]].id != ka by {
            assert(targets.drop_first()[j] == targets[j + 1]);
        }
        assert forall|j: int| 0 <= j < targets.drop_first().len() && j != jb - 1 implies posts[
            #[trigger] targets.drop_first()[j]].id != posts[targets.drop_first()[jb - 1]].id by {
            assert(targets.drop_first()[j] == targets[j + 1]);
        }
        lemma_run_reply_of(posts, outcomes, targets.drop_first(), state1, jb - 1, ka, da);
        let rest = spec_run(posts, outcomes, targets.drop_first(), state1);
        if spec_is_self_reply(posts[i]) {
            assert(run.attempts.len() == 1 + rest.attempts.len());
            assert(run.attempts[0].post_id == posts[targets[0]].id);
            assert(posts[targets[0]].id != posts[targets[jb]].id);
            let jw = choose|jw: int| 0 <= jw < rest.attempts.len()
                && #[trigger] rest.attempts[jw].post_id == posts[targets.drop_first()[jb - 1]].id;
            assert(run.attempts[jw + 1] == rest.attempts[jw]);
            assert(exists|j: int| 0 <= j < run.attempts.len()
                && #[trigger] run.attempts[j].post_id == posts[targets[jb]].id);
            assert forall|j: int| 0 <= j < run.attempts.len()
                && #[trigger] run.attempts[j].post_id == posts[targets[jb]].id implies
                run.attempts[j].request.reply_to == Some(da) by {
                if j > 0 {
                    assert(run.attempts[j] == rest.attempts[j - 1]);
                }
            }
        } else {
            assert(run == rest);
        }
    }
}

/// Reply linking: when post B replies to post A, both are unsynced, both are
/// eligible, and A is older (so it is processed first), then B's publish call
/// carries as its reply target the destination id that A's publish produced.
/// Post ids are assumed pairwise distinct.
pub proof fn lemma_reply_linking(
    posts: Seq<StatusView>,
    outcomes: Seq<PostOutcomeView>,
    prior: Map<Seq<char>, Seq<char>>,
    ia: int,
    ib: int,
)
    requires
        !(prior.dom() =~= Set::<Seq<char>>::empty()),
        0 <= ib < ia < posts.len(),
        forall|a: int, b: int| 0 <= a < b < posts.len() ==> posts[a].id != posts[b].id,
        !prior.contains_key(posts[ia].id),
        !prior.contains_key(posts[ib].id),
        spec_is_self_reply(posts[ia]),
        spec_is_self_reply(posts[ib]),
        posts[ib].in_reply_to_id == Some(posts[ia].id),
    ensures
        exists|j: int| 0 <= j < spec_reconcile(posts, outcomes, prior).attempts.len()
            && #[trigger] spec_reconcile(posts, outcomes, prior).attempts[j].post_id
            == posts[ib].id,
        forall|j: int| 0 <= j < spec_reconcile(posts, outcomes, prior).attempts.len()
            && #[trigger] spec_reconcile(posts, outcomes, prior).attempts[j].post_id
            == posts[ib].id ==> spec_reconcile(posts, outcomes,
            prior).attempts[j].request.reply_to == Some(dest_of(outcomes[ia].publish)),
{
    let n = posts.len() as int;
    let t = spec_targets(posts, prior, n);
    lemma_targets_characterized(posts, prior, n);
    assert(t.contains(ia));
    assert(t.contains(ib));
    let ja = choose|ja: int| 0 <= ja < t.len() && t[ja] == ia;
    let jb = choose|jb: int| 0 <= jb < t.len() && t[jb] == ib;
    assert(ja != jb);
    if ja > jb {
        assert(t[jb] > t[ja]);
        assert(false);
    }
    assert forall|a: int, b: int| 0 <= a < posts.len() && 0 <= b < posts.len() && a != b implies
        #[trigger] posts[a].id != #[trigger] posts[b].id by {
        if a < b {
            assert(posts[a].id != posts[b].id);
        } else {
            assert(posts[b].id != posts[a].id);
        }
    }
    lemma_run_link(posts, outcomes, t, prior, ja, jb);
}

/// The run-level form of reply linking: targets at positions `ja < jb`, the
/// later replying to the earlier, with ids unique among the targets.
proof fn lemma_run_link(
    posts: Seq<StatusView>,
    outcomes: Seq<PostOutcomeView>,
    targets: Seq<int>,
    state: Map<Seq<char>, Seq<char>>,
    ja: int,
    jb: int,
)
    requires
        0 <= ja < jb < targets.len(),
        spec_is_self_reply(posts[targets[ja]]),
        spec_is_self_reply(posts[targets[jb]]),
        posts[targets[jb]].in_reply_to_id == Some(posts[targets[ja]].id),
        forall|j: int| 0 <= j < targets.len() && j != ja ==> posts[#[trigger] targets[j]].id
            != posts[targets[ja]].id,
        forall|j: int| 0 <= j < targets.len() && j != jb ==> posts[#[trigger] targets[j]].id
            != posts[targets[jb]].id,
    ensures
        exists|j: int| 0 <= j < spec_run(posts, outcomes, targets, state).attempts.len()
            && #[trigger] spec_run(posts, outcomes, targets, state).attempts[j].post_id
            == posts[targets[jb]].id,
        forall|j: int| 0 <= j < spec_run(posts, outcomes, targets, state).attempts.len()
            && #[trigger] spec_run(posts, outcomes, targets, state).attempts[j].post_id
            == posts[targets[jb]].id ==> spec_run(posts, outcomes, targets,
            state).attempts[j].request.reply_to == Some(dest_of(outcomes[targets[ja]].publish)),
    decreases targets.len(),
{
    let i = targets.first();
    let run = spec_run(posts, outcomes, targets, state);
    if ja == 0 {
        let da = dest_of(outcomes[i].publish);
        let state1 = state.insert(posts[i].id, da);
        assert(targets.drop_first()[jb - 1] == targets[jb]);
        assert forall|j: int| 0 <= j < targets.drop_first().len() implies posts[
            #[trigger] targets.drop_first()[j]].id != posts[targets[0]].id by {
            assert(targets.drop_first()[j] == targets[j + 1]);
        }
        assert forall|j: int| 0 <= j < targets.drop_first().len() && j != jb - 1 implies posts[
            #[trigger] targets.drop_first()[j]].id != posts[targets.drop_first()[jb - 1]].id by {
            assert(targets.drop_first()[j] == targets[j + 1]);
        }
        lemma_run_reply_of(posts, outcomes, targets.drop_first(), state1, jb - 1,
            posts[targets[0]].id, da);
        let rest = spec_run(posts, outcomes, targets.drop_first(), state1);
        assert(run.attempts.len() == 1 + rest.attempts.len());
        assert(run.attempts[0].post_id == posts[targets[0]].id);
        assert(posts[targets[0]].id != posts[targets[jb]].id);
        let jw = choose|jw: int| 0 <= jw < rest.attempts.len()
            && #[trigger] rest.attempts[jw].post_id == posts[targets.drop_first()[jb - 1]].id;
        assert(run.attempts[jw + 1] == rest.attempts[jw]);
        assert(exists|j: int| 0 <= j < run.attempts.len() && #[trigger] run.attempts[j].post_id
            == posts[targets[jb]].id);
        assert forall|j: int| 0 <= j < run.attempts.len() && #[trigger] run.attempts[j].post_id
            == posts[targets[jb]].id implies run.attempts[j].request.reply_to == Some(
            dest_of(outcomes[targets[ja]].publish)) by {
            if j > 0 {
                assert(run.attempts[j] == rest.attempts[j - 1]);
            }
        }
    } else {
        let state1 = if spec_is_self_reply(posts[i]) {
            state.insert(posts[i].id, dest_of(outcomes[i].publish))
        } else {
            state.insert(posts[i].id, Seq::<char>::empty())
        };
        assert(targets.drop_first()[ja - 1] == targets[ja]);
        assert(targets.drop_first()[jb - 1] == targets[jb]);
        assert forall|j: int| 0 <= j < targets.drop_first().len() && j != ja - 1 implies posts[
            #[trigger] targets.drop_first()[j]].id != posts[targets.drop_first()[ja - 1]].id by {
            assert(targets.drop_first()[j] == targets[j + 1]);
        }
        assert forall|j: int| 0 <= j < targets.drop_first().len() && j != jb - 1 implies posts[
            #[trigger] targets.drop_first()[j]].id != posts[targets.drop_first()[jb - 1]].id by {
            assert(targets.drop_first()[j] == targets[j + 1]);
        }
        lemma_run_link(posts, outcomes, targets.drop_first(), state1, ja - 1, jb - 1);
        let rest = spec_run(posts, outcomes, targets.drop_first(), state1);
        if spec_is_self_reply(posts[i]) {
            assert(run.attempts.len() == 1 + rest.attempts.len());
            assert(run.attempts[0].post_id == posts[targets[0]].id);
            assert(posts[targets[0]].id != posts[targets[jb]].id);
            let jw = choose|jw: int| 0 <= jw < rest.attempts.len()
                && #[trigger] rest.attempts[jw].post_id == posts[targets.drop_first()[jb - 1]].id;
            assert(run.attempts[jw + 1] == rest.attempts[jw]);
            assert(exists|j: int| 0 <= j < run.attempts.len()
                && #[trigger] run.attempts[j].post_id == posts[targets[jb]].id);
            assert forall|j: int| 0 <= j < run.attempts.len()
                && #[trigger] run.attempts[j].post_id == posts[targets[jb]].id implies
                run.attempts[j].request.reply_to == Some(dest_of(
                outcomes[targets[ja]].publish)) by {
                if j > 0 {
                    assert(run.attempts[j] == rest.attempts[j - 1]);
                }
            }
        } else {
            assert(run == rest);
        }
    }
}


/// Content-warning rewrite: a post under a non-empty content warning is
/// published with exactly the warning plus its source link as text, and with
/// no media at all — no upload is attempted and no media id is attached,
/// whatever its attachments and whatever the destination answered.
pub proof fn lemma_content_warning(
    s: StatusView,
    state: Map<Seq<char>, Seq<char>>,
    uploads: Seq<Option<Seq<char>>>,
)
    requires
        s.spoiler_text.len() > 0,
    ensures
        spec_attachments_to_upload(s) =~= Seq::<MediaAttachmentView>::empty(),
        spec_media_opt(spec_media_ids(s, uploads)) is None,
        spec_request(s, state, spec_media_opt(spec_media_ids(s, uploads))).text == "CW: "@
            + s.spoiler_text + "\n\n"@ + s.url,
        spec_request(s, state, spec_media_opt(spec_media_ids(s, uploads))).media_ids is None,
{
}

proof fn lemma_media_ids_upto_all_video(s: StatusView, uploads: Seq<Option<Seq<char>>>, n: int)
    requires
        forall|k: int| 0 <= k < s.media_attachments.len() ==> spec_video(
            #[trigger] s.media_attachments[k]),
        n <= s.media_attachments.len(),
    ensures
        spec_media_ids_upto(s, uploads, n) =~= Seq::<Seq<char>>::empty(),
        spec_attachments_to_upload_upto(s, n) =~= Seq::<MediaAttachmentView>::empty(),
    decreases n,
{
    if n > 0 {
        lemma_media_ids_upto_all_video(s, uploads, n - 1);
    }
}

/// Video skip: a post all of whose attachments are videos is still published,
/// with no upload attempted and no media id attached, whatever the
/// destination answered; its eligibility and its text are untouched.
pub proof fn lemma_video_skip(
    s: StatusView,
    state: Map<Seq<char>, Seq<char>>,
    uploads: Seq<Option<Seq<char>>>,
)
    requires
        forall|k: int| 0 <= k < s.media_attachments.len() ==> spec_video(
            #[trigger] s.media_attachments[k]),
    ensures
        spec_attachments_to_upload(s) =~= Seq::<MediaAttachmentView>::empty(),
        spec_media_opt(spec_media_ids(s, uploads)) is None,
        spec_request(s, state, spec_media_opt(spec_media_ids(s, uploads))).media_ids is None,
        spec_request(s, state, spec_media_opt(spec_media_ids(s, uploads))).text
            == spec_publish_text(s),
{
    lemma_media_ids_upto_all_video(s, uploads, s.media_attachments.len() as int);
}

/// Partial-batch resilience: when the publish of one eligible unsynced post
/// fails, the run is not aborted — the set and order of attempted ids do not
/// depend on the destination's answers at all — and the failed post's final
/// state entry is the empty destination id, so it is handled and never
/// retried. Post ids are assumed pairwise distinct.
pub proof fn lemma_partial_batch(
    posts: Seq<StatusView>,
    outcomes: Seq<PostOutcomeView>,
    prior: Map<Seq<char>, Seq<char>>,
    i: int,
)
    requires
        !(prior.dom() =~= Set::<Seq<char>>::empty()),
        0 <= i < posts.len(),
        forall|a: int, b: int| 0 <= a < b < posts.len() ==> posts[a].id != posts[b].id,
        !prior.contains_key(posts[i].id),
        spec_is_self_reply(posts[i]),
        outcomes[i].publish is None,
    ensures
        spec_reconcile(posts, outcomes, prior).attempts.map_values(
            |a: PublishAttemptView| a.post_id) == spec_attempt_ids(posts, spec_targets(posts,
            prior, posts.len() as int)),
        exists|j: int| 0 <= j < spec_reconcile(posts, outcomes, prior).attempts.len()
            && #[trigger] spec_reconcile(posts, outcomes, prior).attempts[j].post_id
            == posts[i].id,
        spec_reconcile(posts, outcomes, prior).state.contains_key(posts[i].id),
        spec_reconcile(posts, outcomes, prior).state[posts[i].id] == Seq::<char>::empty(),
{
    let n = posts.len() as int;
    let t = spec_targets(posts, prior, n);
    lemma_targets_characterized(posts, prior, n);
    lemma_run_attempt_ids(posts, outcomes, t, prior);
    assert(t.contains(i));
    let jt = choose|jt: int| 0 <= jt < t.len() && t[jt] == i;
    assert forall|j2: int| 0 <= j2 < t.len() && j2 != jt implies posts[#[trigger] t[j2]].id
        != posts[t[jt]].id by {
        if j2 < jt {
            assert(t[j2] > t[jt]);
            assert(posts[t[jt]].id != posts[t[j2]].id);
        } else {
            assert(t[jt] > t[j2]);
            assert(posts[t[j2]].id != posts[t[jt]].id);
        }
    }
    lemma_run_state_at(posts, outcomes, t, prior, jt);
    lemma_attempt_ids_complete(posts, t, jt);
    let run = spec_reconcile(posts, outcomes, prior);
    let ids = run.attempts.map_values(|a: PublishAttemptView| a.post_id);
    let jj = choose|jj: int| 0 <= jj < ids.len() && ids[jj] == posts[i].id;
    assert(run.attempts[jj].post_id == ids[jj]);
}

} // verus!
