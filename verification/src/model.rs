//! The data model of the synchronization core: a source account, a source
//! post (status) with its attachments, and the plain metadata of one media
//! attachment. Each executable type has a ghost view over `Seq<char>` so that
//! contracts can speak of it mathematically.

use vstd::prelude::*;

verus! {

/// The source account, reduced to the one field the engine reads.
#[derive(Clone)]
pub struct Account {
    pub id: String,
}

pub ghost struct AccountView {
    pub id: Seq<char>,
}

impl View for Account {
    type V = AccountView;

    open spec fn view(&self) -> AccountView {
        AccountView { id: self.id@ }
    }
}

impl DeepView for Account {
    type V = AccountView;

    open spec fn deep_view(&self) -> AccountView {
        self@
    }
}

/// One media attachment of a source post.
#[derive(Clone)]
pub struct MediaAttachment {
    pub description: Option<String>,
    pub media_type: String,
    pub url: String,
}

pub ghost struct MediaAttachmentView {
    pub description: Option<Seq<char>>,
    pub media_type: Seq<char>,
    pub url: Seq<char>,
}

impl View for MediaAttachment {
    type V = MediaAttachmentView;

    open spec fn view(&self) -> MediaAttachmentView {
        MediaAttachmentView {
            description: self.description.deep_view(),
            media_type: self.media_type@,
            url: self.url@,
        }
    }
}

impl DeepView for MediaAttachment {
    type V = MediaAttachmentView;

    open spec fn deep_view(&self) -> MediaAttachmentView {
        self@
    }
}

/// A source post, immutable once fetched within a run.
#[derive(Clone)]
pub struct Status {
    pub account: Account,
    pub id: String,
    pub in_reply_to_account_id: Option<String>,
    pub in_reply_to_id: Option<String>,
    pub media_attachments: Vec<MediaAttachment>,
    pub spoiler_text: String,
    pub text: String,
    pub url: String,
}

pub ghost struct StatusView {
    pub account: AccountView,
    pub id: Seq<char>,
    pub in_reply_to_account_id: Option<Seq<char>>,
    pub in_reply_to_id: Option<Seq<char>>,
    pub media_attachments: Seq<MediaAttachmentView>,
    pub spoiler_text: Seq<char>,
    pub text: Seq<char>,
    pub url: Seq<char>,
}

impl View for Status {
    type V = StatusView;

    open spec fn view(&self) -> StatusView {
        StatusView {
            account: self.account@,
            id: self.id@,
            in_reply_to_account_id: self.in_reply_to_account_id.deep_view(),
            in_reply_to_id: self.in_reply_to_id.deep_view(),
            media_attachments: self.media_attachments.deep_view(),
            spoiler_text: self.spoiler_text@,
            text: self.text@,
            url: self.url@,
        }
    }
}

impl DeepView for Status {
    type V = StatusView;

    open spec fn deep_view(&self) -> StatusView {
        self@
    }
}

} // verus!
