//! The reconciliation engine. Given the fetched posts (newest first), the
//! persisted synchronization state, and — for each post — what the destination
//! platform answered when it was asked to store media and publish, `reconcile`
//! computes the publish attempts of the run and the updated state:
//!
//! * an empty prior state bootstraps: every post is marked handled, nothing
//!   is published;
//! * otherwise the posts absent from the prior state are processed oldest
//!   first; a post replying to another account is marked handled without a
//!   publish attempt; every other one is published with its rewritten text,
//!   its resolved reply target and its uploaded media ids, and its id is
//!   recorded immediately, so that later posts of the same batch can link
//!   their replies to it. A failed publish records an empty destination id
//!   and never aborts the batch.
//!
//! A caller that performs the network work drives the same per-post steps
//! (`select_sync_targets`, `attachments_to_upload`, `collect_media_ids`,
//! `build_body`, `SyncState::insert`) with I/O in between; `reconcile` is the
//! same computation with the destination's answers supplied up front.

use vstd::prelude::*;
use vstd::string::StringExecFns;

use crate::model::{MediaAttachment, MediaAttachmentView, Status, StatusView};
use crate::sync_status::{spec_bootstrap, init_sync_status_from_statuses, SyncState};

verus! {

/// What the destination platform answered to one publish call.
pub enum PublishOutcome {
    /// The post was stored; the payload is the destination id it got (the
    /// destination may answer with an empty one).
    Published(String),
    /// The call failed; the post is marked handled and never retried.
    Failed,
}

impl View for PublishOutcome {
    type V = Option<Seq<char>>;

    open spec fn view(&self) -> Option<Seq<char>> {
        match self {
            PublishOutcome::Published(id) => Some(id@),
            PublishOutcome::Failed => None,
        }
    }
}

impl DeepView for PublishOutcome {
    type V = Option<Seq<char>>;

    open spec fn deep_view(&self) -> Option<Seq<char>> {
        self@
    }
}

/// The destination id recorded for an outcome: the returned id, or the empty
/// id on failure.
pub open spec fn dest_of(outcome: Option<Seq<char>>) -> Seq<char> {
    match outcome {
        Some(id) => id,
        None => Seq::empty(),
    }
}

/// The returned destination id, or the empty id for a failed publish: what is
/// recorded in the synchronization state either way.
pub fn outcome_dest(outcome: &PublishOutcome) -> (r: String)
    ensures
        r@ == dest_of(outcome@),
{
    match outcome {
        PublishOutcome::Published(id) => id.clone(),
        PublishOutcome::Failed => String::new(),
    }
}

/// Everything the destination answered for one post: the result of each
/// attachment upload (by attachment position; an upload that failed or was
/// never attempted carries nothing), and the result of the publish call.
pub struct PostOutcome {
    pub uploads: Vec<Option<String>>,
    pub publish: PublishOutcome,
}

pub ghost struct PostOutcomeView {
    pub uploads: Seq<Option<Seq<char>>>,
    pub publish: Option<Seq<char>>,
}

impl View for PostOutcome {
    type V = PostOutcomeView;

    open spec fn view(&self) -> PostOutcomeView {
        PostOutcomeView { uploads: self.uploads.deep_view(), publish: self.publish@ }
    }
}

impl DeepView for PostOutcome {
    type V = PostOutcomeView;

    open spec fn deep_view(&self) -> PostOutcomeView {
        self@
    }
}

/// One publish call to the destination platform: the text, the optional
/// destination id the post replies to, and the optional media ids to attach.
pub struct PublishRequest {
    pub text: String,
    pub reply_to: Option<String>,
    pub media_ids: Option<Vec<String>>,
}

pub ghost struct PublishRequestView {
    pub text: Seq<char>,
    pub reply_to: Option<Seq<char>>,
    pub media_ids: Option<Seq<Seq<char>>>,
}

impl View for PublishRequest {
    type V = PublishRequestView;

    open spec fn view(&self) -> PublishRequestView {
        PublishRequestView {
            text: self.text@,
            reply_to: self.reply_to.deep_view(),
            media_ids: self.media_ids.deep_view(),
        }
    }
}

impl DeepView for PublishRequest {
    type V = PublishRequestView;

    open spec fn deep_view(&self) -> PublishRequestView {
        self@
    }
}

/// One publish attempt of a run: which post, with which request, and which
/// destination id was recorded for it.
pub struct PublishAttempt {
    pub post_id: String,
    pub request: PublishRequest,
    pub destination_id: String,
}

pub ghost struct PublishAttemptView {
    pub post_id: Seq<char>,
    pub request: PublishRequestView,
    pub destination_id: Seq<char>,
}

impl View for PublishAttempt {
    type V = PublishAttemptView;

    open spec fn view(&self) -> PublishAttemptView {
        PublishAttemptView {
            post_id: self.post_id@,
            request: self.request@,
            destination_id: self.destination_id@,
        }
    }
}

impl DeepView for PublishAttempt {
    type V = PublishAttemptView;

    open spec fn deep_view(&self) -> PublishAttemptView {
        self@
    }
}

/// What a run returns: the updated state and the publish attempts in order.
pub struct ReconcileOutput {
    pub state: SyncState,
    pub published: Vec<PublishAttempt>,
}

/// A post that may be published: a top-level post, or a reply to its own
/// author (a thread continuation). Replies to other accounts are filtered.
pub open spec fn spec_is_self_reply(s: StatusView) -> bool {
    match s.in_reply_to_account_id {
        None => true,
        Some(a) => a == s.account.id,
    }
}

/// Whether a post is a top-level post or a self-reply, and so eligible for
/// publishing.
pub fn is_self_reply(status: &Status) -> (r: bool)
    ensures
        r == spec_is_self_reply(status@),
{
    match &status.in_reply_to_account_id {
        None => true,
        Some(a) => *a == status.account.id,
    }
}

/// The destination text: a post under a content warning is published as the
/// warning plus its source link, never its raw body; any other post is
/// published verbatim.
pub open spec fn spec_publish_text(s: StatusView) -> Seq<char> {
    if s.spoiler_text.len() > 0 {
        "CW: "@ + s.spoiler_text + "\n\n"@ + s.url
    } else {
        s.text
    }
}

/// Build the destination text of a post.
pub fn build_text(status: &Status) -> (r: String)
    ensures
        r@ == spec_publish_text(status@),
{
    if status.spoiler_text.as_str().is_empty() {
        status.text.clone()
    } else {
        let t = "CW: ".to_owned();
        let t = t.concat(status.spoiler_text.as_str());
        let t = t.concat("\n\n");
        let t = t.concat(status.url.as_str());
        t
    }
}

/// The reply target of a post: the destination id its parent was mapped to,
/// when the parent is in the working state; a post whose parent is unknown is
/// published as a non-reply.
pub open spec fn spec_reply_target(s: StatusView, state: Map<Seq<char>, Seq<char>>) -> Option<
    Seq<char>,
> {
    match s.in_reply_to_id {
        Some(parent) => if state.contains_key(parent) {
            Some(state[parent])
        } else {
            None
        },
        None => None,
    }
}

/// Resolve the reply target of a post against the working state.
pub fn resolve_reply_target(status: &Status, state: &SyncState) -> (r: Option<String>)
    ensures
        r.deep_view() == spec_reply_target(status@, state@),
{
    match &status.in_reply_to_id {
        Some(parent) => match state.get(parent) {
            Some(dest) => Some(dest.clone()),
            None => None,
        },
        None => None,
    }
}

/// Video uploads are unsupported and silently skipped.
pub open spec fn spec_video(a: MediaAttachmentView) -> bool {
    a.media_type == "video"@
}

pub open spec fn spec_attachments_to_upload_upto(s: StatusView, n: int) -> Seq<
    MediaAttachmentView,
>
    decreases n,
{
    if n <= 0 {
        Seq::empty()
    } else {
        let prev = spec_attachments_to_upload_upto(s, n - 1);
        if !spec_video(s.media_attachments[n - 1]) {
            prev.push(s.media_attachments[n - 1])
        } else {
            prev
        }
    }
}

/// The attachments whose upload a run attempts: none at all under a non-empty
/// content warning; otherwise every attachment that is not a video, in order.
pub open spec fn spec_attachments_to_upload(s: StatusView) -> Seq<MediaAttachmentView> {
    if s.spoiler_text.len() > 0 {
        Seq::empty()
    } else {
        spec_attachments_to_upload_upto(s, s.media_attachments.len() as int)
    }
}

/// The attachments of a post whose upload the run attempts.
pub fn attachments_to_upload<'a>(status: &'a Status) -> (r: Vec<&'a MediaAttachment>)
    ensures
        r.deep_view() == spec_attachments_to_upload(status@),
{
    let mut r: Vec<&'a MediaAttachment> = Vec::new();
    if !status.spoiler_text.as_str().is_empty() {
        proof {
            assert(r.deep_view() =~= spec_attachments_to_upload(status@));
        }
        return r;
    }
    let mut k: usize = 0;
    while k < status.media_attachments.len()
        invariant
            k <= status.media_attachments@.len(),
            r.deep_view() == spec_attachments_to_upload_upto(status@, k as int),
        decreases status.media_attachments@.len() - k,
    {
        let a = &status.media_attachments[k];
        let ghost pre = r.deep_view();
        if !(a.media_type == "video".to_owned()) {
            r.push(a);
            proof {
                assert(r.deep_view() =~= pre.push(status@.media_attachments[k as int]));
            }
        }
        k += 1;
    }
    proof {
        assert(r.deep_view() =~= spec_attachments_to_upload(status@));
    }
    r
}

pub open spec fn spec_media_ids_upto(s: StatusView, uploads: Seq<Option<Seq<char>>>, n: int) -> Seq<
    Seq<char>,
>
    decreases n,
{
    if n <= 0 {
        Seq::empty()
    } else {
        let prev = spec_media_ids_upto(s, uploads, n - 1);
        if !spec_video(s.media_attachments[n - 1]) && uploads[n - 1] is Some {
            prev.push(uploads[n - 1]->0)
        } else {
            prev
        }
    }
}

/// The media ids attached to a publish: none under a content warning;
/// otherwise the ids the successful uploads of non-video attachments
/// returned, in attachment order.
pub open spec fn spec_media_ids(s: StatusView, uploads: Seq<Option<Seq<char>>>) -> Seq<Seq<char>> {
    if s.spoiler_text.len() > 0 {
        Seq::empty()
    } else {
        spec_media_ids_upto(s, uploads, s.media_attachments.len() as int)
    }
}

/// Gather the media ids for one post from its per-attachment upload results.
pub fn collect_media_ids(status: &Status, uploads: &Vec<Option<String>>) -> (r: Vec<String>)
    requires
        uploads@.len() == status.media_attachments@.len(),
    ensures
        r.deep_view() == spec_media_ids(status@, uploads.deep_view()),
{
    let mut r: Vec<String> = Vec::new();
    if !status.spoiler_text.as_str().is_empty() {
        proof {
            assert(r.deep_view() =~= spec_media_ids(status@, uploads.deep_view()));
        }
        return r;
    }
    let mut k: usize = 0;
    while k < status.media_attachments.len()
        invariant
            k <= status.media_attachments@.len(),
            uploads@.len() == status.media_attachments@.len(),
            r.deep_view() == spec_media_ids_upto(status@, uploads.deep_view(), k as int),
        decreases status.media_attachments@.len() - k,
    {
        let a = &status.media_attachments[k];
        let ghost pre = r.deep_view();
        if !(a.media_type == "video".to_owned()) {
            match &uploads[k] {
                Some(id) => {
                    r.push(id.clone());
                    proof {
                        assert(r.deep_view() =~= pre.push(uploads.deep_view()[k as int]->0));
                    }
                },
                None => {},
            }
        }
        k += 1;
    }
    proof {
        assert(r.deep_view() =~= spec_media_ids(status@, uploads.deep_view()));
    }
    r
}

/// An empty id list attaches no media at all.
pub open spec fn spec_media_opt(ids: Seq<Seq<char>>) -> Option<Seq<Seq<char>>> {
    if ids.len() > 0 {
        Some(ids)
    } else {
        None
    }
}

/// The publish request for a post, against a given working state and with
/// given media ids.
pub open spec fn spec_request(
    s: StatusView,
    state: Map<Seq<char>, Seq<char>>,
    media: Option<Seq<Seq<char>>>,
) -> PublishRequestView {
    PublishRequestView {
        text: spec_publish_text(s),
        reply_to: spec_reply_target(s, state),
        media_ids: media,
    }
}

/// Build the publish request for a post: its destination text, its reply
/// target resolved against the working state, and the given media ids.
pub fn build_body(status: &Status, state: &SyncState, media_ids: Option<Vec<String>>) -> (r:
    PublishRequest)
    ensures
        r.deep_view() == spec_request(status@, state@, media_ids.deep_view()),
{
    let text = build_text(status);
    let reply_to = resolve_reply_target(status, state);
    PublishRequest { text, reply_to, media_ids }
}

/// The indices of the posts a run handles: those whose id the prior state
/// does not contain, oldest first (posts are fetched newest first, so from
/// the highest index down).
pub open spec fn spec_targets(
    posts: Seq<StatusView>,
    prior: Map<Seq<char>, Seq<char>>,
    n: int,
) -> Seq<int>
    decreases n,
{
    if n <= 0 {
        Seq::empty()
    } else if !prior.contains_key(posts[n - 1].id) {
        seq![n - 1] + spec_targets(posts, prior, n - 1)
    } else {
        spec_targets(posts, prior, n - 1)
    }
}

/// Every selected index is in range.
pub proof fn lemma_targets_range(posts: Seq<StatusView>, prior: Map<Seq<char>, Seq<char>>, n: int)
    requires
        n <= posts.len(),
    ensures
        forall|j: int| 0 <= j < spec_targets(posts, prior, n).len() ==> 0 <= #[trigger] spec_targets(
            posts, prior, n)[j] < n,
    decreases n,
{
    if n > 0 {
        lemma_targets_range(posts, prior, n - 1);
        let t = spec_targets(posts, prior, n);
        let rest = spec_targets(posts, prior, n - 1);
        if !prior.contains_key(posts[n - 1].id) {
            assert forall|j: int| 0 <= j < t.len() implies 0 <= #[trigger] t[j] < n by {
                if j > 0 {
                    assert(t[j] == rest[j - 1]);
                }
            }
        } else {
            assert forall|j: int| 0 <= j < t.len() implies 0 <= #[trigger] t[j] < n by {
                assert(t[j] == rest[j]);
            }
        }
    }
}

/// Select the posts a run handles: those absent from the prior state, oldest
/// first.
pub fn select_sync_targets(posts: &Vec<Status>, prior: &SyncState) -> (r: Vec<usize>)
    ensures
        r@.map_values(|u: usize| u as int) == spec_targets(posts.deep_view(), prior@,
            posts@.len() as int),
        forall|j: int| 0 <= j < r@.len() ==> #[trigger] r@[j] < posts@.len(),
{
    let ghost pv = posts.deep_view();
    let mut r: Vec<usize> = Vec::new();
    let mut i: usize = posts.len();
    proof {
        assert(r@.map_values(|u: usize| u as int) =~= Seq::<int>::empty());
        assert(spec_targets(pv, prior@, pv.len() as int) =~= r@.map_values(|u: usize| u as int)
            + spec_targets(pv, prior@, i as int));
    }
    while i > 0
        invariant
            i <= posts@.len(),
            pv == posts.deep_view(),
            forall|j: int| 0 <= j < r@.len() ==> #[trigger] r@[j] < posts@.len(),
            spec_targets(pv, prior@, pv.len() as int) == r@.map_values(|u: usize| u as int)
                + spec_targets(pv, prior@, i as int),
        decreases i,
    {
        i -= 1;
        let ghost pre = r@;
        if !prior.contains_key(&posts[i].id) {
            r.push(i);
            proof {
                assert(pv[i as int].id == posts@[i as int].id@);
                assert(spec_targets(pv, prior@, i as int + 1) =~= seq![i as int] + spec_targets(
                    pv, prior@, i as int));
                assert(r@.map_values(|u: usize| u as int) =~= pre.map_values(|u: usize| u as int)
                    + seq![i as int]);
                assert(pre.map_values(|u: usize| u as int) + (seq![i as int] + spec_targets(pv,
                    prior@, i as int)) =~= (pre.map_values(|u: usize| u as int) + seq![i as int])
                    + spec_targets(pv, prior@, i as int));
            }
        } else {
            proof {
                assert(pv[i as int].id == posts@[i as int].id@);
                assert(spec_targets(pv, prior@, i as int + 1) == spec_targets(pv, prior@,
                    i as int));
            }
        }
    }
    proof {
        assert(spec_targets(pv, prior@, 0) =~= Seq::<int>::empty());
        assert(r@.map_values(|u: usize| u as int) + Seq::<int>::empty() =~= r@.map_values(
            |u: usize| u as int));
    }
    r
}

/// The mathematical account of one run over already-selected targets: the
/// working state after every target was handled, and the publish attempts in
/// processing order.
pub ghost struct RunView {
    pub state: Map<Seq<char>, Seq<char>>,
    pub attempts: Seq<PublishAttemptView>,
}

/// Handle the targets in order against a working state: an eligible post is
/// published and its destination id recorded at once; a reply to another
/// account is marked handled with an empty destination id and not published.
pub open spec fn spec_run(
    posts: Seq<StatusView>,
    outcomes: Seq<PostOutcomeView>,
    targets: Seq<int>,
    state: Map<Seq<char>, Seq<char>>,
) -> RunView
    decreases targets.len(),
{
    if targets.len() == 0 {
        RunView { state, attempts: Seq::empty() }
    } else {
        let i = targets.first();
        let s = posts[i];
        if spec_is_self_reply(s) {
            let media = spec_media_opt(spec_media_ids(s, outcomes[i].uploads));
            let request = spec_request(s, state, media);
            let dest = dest_of(outcomes[i].publish);
            let rest = spec_run(posts, outcomes, targets.drop_first(), state.insert(s.id, dest));
            RunView {
                state: rest.state,
                attempts: seq![
                    PublishAttemptView { post_id: s.id, request, destination_id: dest },
                ] + rest.attempts,
            }
        } else {
            spec_run(posts, outcomes, targets.drop_first(), state.insert(s.id, Seq::empty()))
        }
    }
}

/// What a whole run does: bootstrap on an empty prior state, otherwise handle
/// the unsynced posts oldest first.
pub open spec fn spec_reconcile(
    posts: Seq<StatusView>,
    outcomes: Seq<PostOutcomeView>,
    prior: Map<Seq<char>, Seq<char>>,
) -> RunView {
    if prior.dom() =~= Set::<Seq<char>>::empty() {
        RunView { state: spec_bootstrap(posts), attempts: Seq::empty() }
    } else {
        spec_run(posts, outcomes, spec_targets(posts, prior, posts.len() as int), prior)
    }
}

/// One whole run. `outcomes[i]` holds what the destination answers if and
/// when `posts[i]` is handled: one upload result per attachment, and the
/// publish result.
///
/// On an empty prior state the run bootstraps: the returned state marks every
/// fetched post handled and nothing is published. Otherwise every post absent
/// from the prior state is handled, oldest first; the returned state is the
/// prior state plus one entry per handled post, and the returned attempts are
/// the publish calls made, in order, each with its recorded destination id.
pub fn reconcile(posts: &Vec<Status>, prior: SyncState, outcomes: &Vec<PostOutcome>) -> (r:
    ReconcileOutput)
    requires
        posts@.len() == outcomes@.len(),
        forall|i: int| 0 <= i < posts@.len() ==> (#[trigger] outcomes@[i]).uploads@.len()
            == posts@[i].media_attachments@.len(),
    ensures
        r.state@ == spec_reconcile(posts.deep_view(), outcomes.deep_view(), prior@).state,
        r.published.deep_view() == spec_reconcile(posts.deep_view(), outcomes.deep_view(),
            prior@).attempts,
{
    let ghost pv = posts.deep_view();
    let ghost ov = outcomes.deep_view();
    let ghost prior_map = prior@;
    if prior.is_empty() {
        let state = init_sync_status_from_statuses(posts);
        let published: Vec<PublishAttempt> = Vec::new();
        proof {
            assert(published.deep_view() =~= Seq::<PublishAttemptView>::empty());
        }
        return ReconcileOutput { state, published };
    }
    let ghost tv = spec_targets(pv, prior_map, pv.len() as int);
    let ghost full = spec_run(pv, ov, tv, prior_map);
    let targets = select_sync_targets(posts, &prior);
    let mut state = prior;
    let mut published: Vec<PublishAttempt> = Vec::new();
    let mut j: usize = 0;
    proof {
        assert(tv.skip(0) =~= tv);
        assert(published.deep_view() =~= Seq::<PublishAttemptView>::empty());
        assert(Seq::<PublishAttemptView>::empty() + full.attempts =~= full.attempts);
    }
    while j < targets.len()
        invariant
            j <= targets@.len(),
            pv == posts.deep_view(),
            ov == outcomes.deep_view(),
            posts@.len() == outcomes@.len(),
            forall|i: int| 0 <= i < posts@.len() ==> (#[trigger] outcomes@[i]).uploads@.len()
                == posts@[i].media_attachments@.len(),
            targets@.map_values(|u: usize| u as int) == tv,
            forall|k: int| 0 <= k < targets@.len() ==> #[trigger] targets@[k] < posts@.len(),
            full == spec_run(pv, ov, tv, prior_map),
            full.state == spec_run(pv, ov, tv.skip(j as int), state@).state,
            full.attempts == published.deep_view() + spec_run(pv, ov, tv.skip(j as int),
                state@).attempts,
        decreases targets@.len() - j,
    {
        let i = targets[j];
        let status = &posts[i];
        let ghost state_pre = state@;
        let ghost rem = tv.skip(j as int);
        proof {
            assert(targets@.map_values(|u: usize| u as int)[j as int] == i as int);
            assert(rem.len() == tv.len() - j);
            assert(rem.first() == tv[j as int]);
            assert(rem.drop_first() =~= tv.skip(j as int + 1));
            assert(pv[i as int] == posts@[i as int]@);
        }
        if is_self_reply(status) {
            let ids = collect_media_ids(status, &outcomes[i].uploads);
            let ghost idsv = ids.deep_view();
            let media = if ids.len() == 0 {
                None
            } else {
                Some(ids)
            };
            proof {
                assert(idsv.len() == ids@.len());
                assert(media.deep_view() == spec_media_opt(spec_media_ids(pv[i as int],
                    ov[i as int].uploads)));
            }
            let request = build_body(status, &state, media);
            let dest = outcome_dest(&outcomes[i].publish);
            let attempt = PublishAttempt {
                post_id: status.id.clone(),
                request,
                destination_id: dest.clone(),
            };
            let ghost av = attempt.deep_view();
            let ghost pubv = published.deep_view();
            published.push(attempt);
            state.insert(status.id.clone(), dest);
            proof {
                assert(published.deep_view() =~= pubv.push(av));
                let spec_dest = dest_of(ov[i as int].publish);
                let spec_media = spec_media_opt(spec_media_ids(pv[i as int],
                    ov[i as int].uploads));
                assert(av == PublishAttemptView {
                    post_id: pv[i as int].id,
                    request: spec_request(pv[i as int], state_pre, spec_media),
                    destination_id: spec_dest,
                });
                assert(state@ == state_pre.insert(pv[i as int].id, spec_dest));
                assert(spec_run(pv, ov, rem, state_pre).state == spec_run(pv, ov,
                    tv.skip(j as int + 1), state@).state);
                assert(spec_run(pv, ov, rem, state_pre).attempts =~= seq![av] + spec_run(pv, ov,
                    tv.skip(j as int + 1), state@).attempts);
                assert(pubv + (seq![av] + spec_run(pv, ov, tv.skip(j as int + 1),
                    state@).attempts) =~= pubv.push(av) + spec_run(pv, ov, tv.skip(j as int + 1),
                    state@).attempts);
            }
        } else {
            state.insert(status.id.clone(), String::new());
            proof {
                assert(state@ == state_pre.insert(pv[i as int].id, Seq::<char>::empty()));
                assert(spec_run(pv, ov, rem, state_pre) == spec_run(pv, ov, tv.skip(j as int + 1),
                    state@));
            }
        }
        j += 1;
    }
    proof {
        assert(tv.skip(j as int) =~= Seq::<int>::empty());
        assert(published.deep_view() + Seq::<PublishAttemptView>::empty() =~= published.deep_view());
        assert(!(prior_map.dom() =~= Set::<Seq<char>>::empty()));
    }
    ReconcileOutput { state, published }
}

} // verus!

