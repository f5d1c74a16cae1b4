//! Scrollback-flush bookkeeping for the inline viewport.
//!
//! Finalized history goes to the terminal's scrollback; the live UI is drawn
//! in the inline viewport. Before each draw, the tracker compares the
//! committed history with what it already pushed to scrollback and says
//! which messages still have to be flushed, and whether the scrollback
//! written so far is stale (a session switch, or a hydrate that replaced
//! history) so that the whole current history must be written again.

use vstd::prelude::*;

verus! {

/// A summary of a session's committed history.
#[derive(Debug, Clone, PartialEq, Eq)]
pub struct CommittedFingerprint {
    pub session_id: String,
    pub message_count: usize,
    /// Hash of the whole committed list.
    pub content_hash: u64,
}

pub struct FingerprintView {
    pub session_id: Seq<char>,
    pub message_count: usize,
    pub content_hash: u64,
}

impl View for CommittedFingerprint {
    type V = FingerprintView;

    open spec fn view(&self) -> FingerprintView {
        FingerprintView {
            session_id: self.session_id@,
            message_count: self.message_count,
            content_hash: self.content_hash,
        }
    }
}

impl CommittedFingerprint {
    /// No session and no messages.
    pub fn empty() -> (f: Self)
        ensures
            f@.session_id.len() == 0,
            f.message_count == 0,
            f.content_hash == 0,
    {
        CommittedFingerprint { session_id: String::new(), message_count: 0, content_hash: 0 }
    }
}

/// What the caller writes to scrollback before drawing.
#[derive(Debug, Clone, Copy, PartialEq, Eq, Structural)]
pub enum FlushPlan {
    /// Nothing is committed: nothing to write.
    Nothing,
    /// Append the committed messages from index `from` on (none when `from`
    /// is the message count).
    Append { from: usize },
    /// The written scrollback is stale: write the whole current history
    /// again (the old block cannot be unwritten).
    Reflush,
}

/// What to do with scrollback before drawing: the rows to insert above the
/// viewport, in order, and whether the scrollback written so far is stale
/// (then the rows are a full re-flush of the current history).
#[derive(Debug, Clone, PartialEq, Eq)]
pub struct ScrollbackUpdate {
    pub lines_to_insert: Vec<crate::insert_history::StyledLine>,
    pub reset: bool,
}

/// Tracks how much committed history has been flushed to scrollback.
#[derive(Debug)]
pub struct ScrollbackTracker {
    /// Fingerprint of the committed history last flushed.
    pub last: CommittedFingerprint,
    /// Number of committed messages already flushed for `last.session_id`.
    pub flushed_messages: usize,
}

/// Whether the flushed prefix survives in `next`: with an unchanged count
/// the whole-list hashes must match; a grown list is taken as an append.
pub open spec fn prefix_preserved_spec(last: FingerprintView, next: FingerprintView, flushed: usize) -> bool {
    if next.message_count == last.message_count {
        next.content_hash == last.content_hash
    } else {
        next.message_count >= flushed
    }
}

pub fn is_prefix_preserved(
    last: &CommittedFingerprint,
    next: &CommittedFingerprint,
    flushed: usize,
) -> (b: bool)
    ensures
        b == prefix_preserved_spec(last@, next@, flushed),
{
    if next.message_count == last.message_count {
        return next.content_hash == last.content_hash;
    }
    next.message_count >= flushed
}

/// The plan for `next` given the tracker's last fingerprint and flushed
/// count. A fresh tracker's first flush appends everything (there is no
/// prior scrollback to invalidate).
pub open spec fn sync_plan(last: FingerprintView, flushed: usize, next: FingerprintView) -> FlushPlan {
    if next.message_count == 0 {
        FlushPlan::Nothing
    } else if (flushed == 0 && last.session_id.len() == 0) || (next.session_id == last.session_id
        && next.message_count >= flushed && prefix_preserved_spec(last, next, flushed)) {
        FlushPlan::Append { from: flushed }
    } else {
        FlushPlan::Reflush
    }
}

impl ScrollbackTracker {
    pub fn new() -> (t: Self)
        ensures
            t.last@.session_id.len() == 0,
            t.last.message_count == 0,
            t.last.content_hash == 0,
            t.flushed_messages == 0,
    {
        ScrollbackTracker { last: CommittedFingerprint::empty(), flushed_messages: 0 }
    }

    /// Reconciles the tracker with the current committed history and says
    /// what to write; afterwards the tracker has flushed all of `fingerprint`.
    pub fn sync(&mut self, fingerprint: CommittedFingerprint) -> (plan: FlushPlan)
        ensures
            plan == sync_plan(old(self).last@, old(self).flushed_messages, fingerprint@),
            final(self).last@ == fingerprint@,
            final(self).flushed_messages == fingerprint.message_count,
    {
        if fingerprint.message_count == 0 {
            self.last = fingerprint;
            self.flushed_messages = 0;
            return FlushPlan::Nothing;
        }
        let first_flush = self.flushed_messages == 0 && self.last.session_id.as_str().is_empty();
        let is_extension = first_flush || (fingerprint.session_id == self.last.session_id
            && fingerprint.message_count >= self.flushed_messages && is_prefix_preserved(
            &self.last,
            &fingerprint,
            self.flushed_messages,
        ));
        let from = self.flushed_messages;
        self.flushed_messages = fingerprint.message_count;
        self.last = fingerprint;
        if is_extension {
            FlushPlan::Append { from }
        } else {
            FlushPlan::Reflush
        }
    }
}

/// Syncing the same history twice writes nothing new the second time.
pub proof fn law_resync_appends_nothing(f: FingerprintView)
    ensures
        f.message_count == 0 ==> sync_plan(f, f.message_count, f) == FlushPlan::Nothing,
        f.message_count > 0 ==> sync_plan(f, f.message_count, f) == (FlushPlan::Append {
            from: f.message_count,
        }),
{
}

/// Messages added to the same session are appended from where the last
/// flush stopped, never re-flushed.
pub proof fn law_growth_appends(last: FingerprintView, next: FingerprintView)
    requires
        last.message_count > 0,
        next.session_id == last.session_id,
        next.message_count > last.message_count,
    ensures
        sync_plan(last, last.message_count, next) == (FlushPlan::Append {
            from: last.message_count,
        }),
{
}

/// After a flush, a different session's history is written again in full.
pub proof fn law_session_switch_reflushes(last: FingerprintView, next: FingerprintView)
    requires
        last.message_count > 0,
        next.message_count > 0,
        next.session_id != last.session_id,
    ensures
        sync_plan(last, last.message_count, next) == FlushPlan::Reflush,
{
}

} // verus!
