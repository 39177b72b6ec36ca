use masto_to_tw::model::{Account, MediaAttachment, Status};
use masto_to_tw::reconcile::{
    attachments_to_upload, build_body, build_text, collect_media_ids, is_self_reply, outcome_dest,
    reconcile, select_sync_targets, PostOutcome, PublishOutcome,
};
use masto_to_tw::sync_status::{init_sync_status_from_statuses, SyncState};

fn post(id: &str, author: &str, body: &str, cw: &str, url: &str) -> Status {
    Status {
        account: Account { id: author.to_string() },
        id: id.to_string(),
        in_reply_to_account_id: None,
        in_reply_to_id: None,
        media_attachments: Vec::new(),
        spoiler_text: cw.to_string(),
        text: body.to_string(),
        url: url.to_string(),
    }
}

fn attachment(media_type: &str, url: &str, description: Option<&str>) -> MediaAttachment {
    MediaAttachment {
        description: description.map(|d| d.to_string()),
        media_type: media_type.to_string(),
        url: url.to_string(),
    }
}

fn ok_outcome(dest: &str, uploads: Vec<Option<&str>>) -> PostOutcome {
    PostOutcome {
        uploads: uploads.into_iter().map(|u| u.map(|s| s.to_string())).collect(),
        publish: PublishOutcome::Published(dest.to_string()),
    }
}

fn failed_outcome(uploads: Vec<Option<&str>>) -> PostOutcome {
    PostOutcome {
        uploads: uploads.into_iter().map(|u| u.map(|s| s.to_string())).collect(),
        publish: PublishOutcome::Failed,
    }
}

fn state_of(pairs: &[(&str, &str)]) -> SyncState {
    SyncState::from_pairs(
        pairs.iter().map(|(k, v)| (k.to_string(), v.to_string())).collect(),
    )
}

#[test]
fn idempotent_run_publishes_nothing() {
    let posts = vec![post("a", "u1", "first", "", "http://s/a"), post("b", "u1", "second", "", "http://s/b")];
    let prior = state_of(&[("a", "da"), ("b", "")]);
    let outcomes = vec![ok_outcome("x1", vec![]), ok_outcome("x2", vec![])];
    let r = reconcile(&posts, prior, &outcomes);
    assert!(r.published.is_empty());
    assert_eq!(r.state.get(&"a".to_string()).unwrap(), "da");
    assert_eq!(r.state.get(&"b".to_string()).unwrap(), "");
    assert!(!r.state.contains_key(&"c".to_string()));
}

#[test]
fn bootstrap_marks_all_handled_and_publishes_nothing() {
    let posts = vec![post("a", "u1", "first", "", "http://s/a"), post("b", "u1", "second", "", "http://s/b")];
    let prior = SyncState::new();
    let outcomes = vec![ok_outcome("x1", vec![]), ok_outcome("x2", vec![])];
    let r = reconcile(&posts, prior, &outcomes);
    assert!(r.published.is_empty());
    assert_eq!(r.state.get(&"a".to_string()).unwrap(), "");
    assert_eq!(r.state.get(&"b".to_string()).unwrap(), "");
}

#[test]
fn publishes_oldest_first() {
    // Fetched newest first: a is the newest, c the oldest.
    let posts = vec![
        post("a", "u1", "newest", "", "http://s/a"),
        post("b", "u1", "middle", "", "http://s/b"),
        post("c", "u1", "oldest", "", "http://s/c"),
    ];
    let prior = state_of(&[("seed", "s0")]);
    let outcomes = vec![
        ok_outcome("ta", vec![]),
        ok_outcome("tb", vec![]),
        ok_outcome("tc", vec![]),
    ];
    let r = reconcile(&posts, prior, &outcomes);
    let ids: Vec<&str> = r.published.iter().map(|a| a.post_id.as_str()).collect();
    assert_eq!(ids, vec!["c", "b", "a"]);
    assert_eq!(r.published[0].destination_id, "tc");
    assert_eq!(r.published[1].destination_id, "tb");
    assert_eq!(r.published[2].destination_id, "ta");
}

#[test]
fn reply_to_other_account_is_filtered_but_handled() {
    let mut replying = post("r", "u1", "a reply", "", "http://s/r");
    replying.in_reply_to_account_id = Some("u2".to_string());
    replying.in_reply_to_id = Some("other-post".to_string());
    let posts = vec![replying, post("a", "u1", "plain", "", "http://s/a")];
    let prior = state_of(&[("seed", "s0")]);
    let outcomes = vec![ok_outcome("tr", vec![]), ok_outcome("ta", vec![])];
    let r = reconcile(&posts, prior, &outcomes);
    let ids: Vec<&str> = r.published.iter().map(|a| a.post_id.as_str()).collect();
    assert_eq!(ids, vec!["a"]);
    assert_eq!(r.state.get(&"r".to_string()).unwrap(), "");
    assert_eq!(r.state.get(&"a".to_string()).unwrap(), "ta");
}

#[test]
fn self_reply_is_published() {
    let mut threaded = post("t", "u1", "thread part", "", "http://s/t");
    threaded.in_reply_to_account_id = Some("u1".to_string());
    threaded.in_reply_to_id = Some("parent".to_string());
    assert!(is_self_reply(&threaded));
    let posts = vec![threaded];
    let prior = state_of(&[("seed", "s0")]);
    let outcomes = vec![ok_outcome("tt", vec![])];
    let r = reconcile(&posts, prior, &outcomes);
    assert_eq!(r.published.len(), 1);
    assert_eq!(r.published[0].post_id, "t");
}

#[test]
fn reply_chain_links_destination_id_within_batch() {
    // b replies to a; a is older (higher index), so it is published first.
    let mut b = post("b", "u1", "continuation", "", "http://s/b");
    b.in_reply_to_account_id = Some("u1".to_string());
    b.in_reply_to_id = Some("a".to_string());
    let posts = vec![b, post("a", "u1", "thread start", "", "http://s/a")];
    let prior = state_of(&[("seed", "s0")]);
    let outcomes = vec![ok_outcome("db", vec![]), ok_outcome("da", vec![])];
    let r = reconcile(&posts, prior, &outcomes);
    let ids: Vec<&str> = r.published.iter().map(|a| a.post_id.as_str()).collect();
    assert_eq!(ids, vec!["a", "b"]);
    assert_eq!(r.published[1].request.reply_to, Some("da".to_string()));
}

#[test]
fn reply_to_missing_parent_published_as_non_reply() {
    let mut b = post("b", "u1", "orphan reply", "", "http://s/b");
    b.in_reply_to_account_id = Some("u1".to_string());
    b.in_reply_to_id = Some("unknown".to_string());
    let posts = vec![b];
    let prior = state_of(&[("seed", "s0")]);
    let outcomes = vec![ok_outcome("db", vec![])];
    let r = reconcile(&posts, prior, &outcomes);
    assert_eq!(r.published.len(), 1);
    assert_eq!(r.published[0].request.reply_to, None);
}

#[test]
fn reply_parent_resolved_from_prior_state() {
    let mut b = post("b", "u1", "late reply", "", "http://s/b");
    b.in_reply_to_account_id = Some("u1".to_string());
    b.in_reply_to_id = Some("old".to_string());
    let posts = vec![b];
    let prior = state_of(&[("old", "dold")]);
    let outcomes = vec![ok_outcome("db", vec![])];
    let r = reconcile(&posts, prior, &outcomes);
    assert_eq!(r.published[0].request.reply_to, Some("dold".to_string()));
}

#[test]
fn content_warning_rewrites_text_and_drops_media() {
    let mut p = post("cw", "u1", "text", "spoiler", "http://x/1");
    p.media_attachments = vec![attachment("image", "http://m/1", Some("alt"))];
    assert!(attachments_to_upload(&p).is_empty());
    let posts = vec![p];
    let prior = state_of(&[("seed", "s0")]);
    let outcomes = vec![ok_outcome("d1", vec![Some("m1")])];
    let r = reconcile(&posts, prior, &outcomes);
    assert_eq!(r.published.len(), 1);
    assert_eq!(r.published[0].request.text, "CW: spoiler\n\nhttp://x/1");
    assert_eq!(r.published[0].request.media_ids, None);
}

#[test]
fn video_attachment_skipped_but_post_published() {
    let mut p = post("v", "u1", "with a video", "", "http://s/v");
    p.media_attachments = vec![attachment("video", "http://m/v", None)];
    assert!(attachments_to_upload(&p).is_empty());
    let posts = vec![p];
    let prior = state_of(&[("seed", "s0")]);
    let outcomes = vec![ok_outcome("dv", vec![Some("mv")])];
    let r = reconcile(&posts, prior, &outcomes);
    assert_eq!(r.published.len(), 1);
    assert_eq!(r.published[0].request.media_ids, None);
    assert_eq!(r.published[0].destination_id, "dv");
}

#[test]
fn middle_failure_does_not_abort_batch() {
    let posts = vec![
        post("a", "u1", "newest", "", "http://s/a"),
        post("b", "u1", "middle", "", "http://s/b"),
        post("c", "u1", "oldest", "", "http://s/c"),
    ];
    let prior = state_of(&[("seed", "s0")]);
    let outcomes = vec![
        ok_outcome("ta", vec![]),
        failed_outcome(vec![]),
        ok_outcome("tc", vec![]),
    ];
    let r = reconcile(&posts, prior, &outcomes);
    let ids: Vec<&str> = r.published.iter().map(|a| a.post_id.as_str()).collect();
    assert_eq!(ids, vec!["c", "b", "a"]);
    assert_eq!(r.state.get(&"c".to_string()).unwrap(), "tc");
    assert_eq!(r.state.get(&"b".to_string()).unwrap(), "");
    assert_eq!(r.state.get(&"a".to_string()).unwrap(), "ta");
}

#[test]
fn media_ids_attached_in_attachment_order() {
    let mut p = post("m", "u1", "gallery", "", "http://s/m");
    p.media_attachments = vec![
        attachment("image", "http://m/1", None),
        attachment("video", "http://m/2", None),
        attachment("image", "http://m/3", None),
        attachment("image", "http://m/4", None),
    ];
    let uploads = vec![
        Some("m1".to_string()),
        Some("skipped".to_string()),
        None,
        Some("m4".to_string()),
    ];
    let ids = collect_media_ids(&p, &uploads);
    assert_eq!(ids, vec!["m1".to_string(), "m4".to_string()]);
    let to_upload = attachments_to_upload(&p);
    let urls: Vec<&str> = to_upload.iter().map(|a| a.url.as_str()).collect();
    assert_eq!(urls, vec!["http://m/1", "http://m/3", "http://m/4"]);
}

#[test]
fn build_text_plain_and_with_warning() {
    let plain = post("p", "u1", "hello world", "", "http://s/p");
    assert_eq!(build_text(&plain), "hello world");
    let warned = post("w", "u1", "hidden body", "lewd", "http://s/w");
    assert_eq!(build_text(&warned), "CW: lewd\n\nhttp://s/w");
}

#[test]
fn build_body_combines_text_reply_and_media() {
    let mut p = post("b", "u1", "body", "", "http://s/b");
    p.in_reply_to_id = Some("parent".to_string());
    p.in_reply_to_account_id = Some("u1".to_string());
    let state = state_of(&[("parent", "dp")]);
    let body = build_body(&p, &state, Some(vec!["m1".to_string()]));
    assert_eq!(body.text, "body");
    assert_eq!(body.reply_to, Some("dp".to_string()));
    assert_eq!(body.media_ids, Some(vec!["m1".to_string()]));
}

#[test]
fn select_sync_targets_oldest_first_and_unsynced_only() {
    let posts = vec![
        post("a", "u1", "newest", "", "http://s/a"),
        post("b", "u1", "synced", "", "http://s/b"),
        post("c", "u1", "oldest", "", "http://s/c"),
    ];
    let prior = state_of(&[("b", "db")]);
    let targets = select_sync_targets(&posts, &prior);
    assert_eq!(targets, vec![2usize, 0usize]);
}

#[test]
fn init_sync_status_marks_every_post() {
    let posts = vec![post("a", "u1", "one", "", "http://s/a"), post("b", "u1", "two", "", "http://s/b")];
    let s = init_sync_status_from_statuses(&posts);
    assert_eq!(s.get(&"a".to_string()).unwrap(), "");
    assert_eq!(s.get(&"b".to_string()).unwrap(), "");
    assert!(!s.contains_key(&"c".to_string()));
}

#[test]
fn outcome_dest_maps_failure_to_empty_id() {
    assert_eq!(outcome_dest(&PublishOutcome::Published("d1".to_string())), "d1");
    assert_eq!(outcome_dest(&PublishOutcome::Failed), "");
}
