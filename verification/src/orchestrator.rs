//! Decision rules of the polling cycle.
//!
//! Each cycle the caller lists the source's conversations, and this module
//! decides which of them deserve a visit (admission control), how an inbound
//! wire request is to be dispatched (sentinel classification), and when the
//! accumulated failures of a run become fatal (error budget). The polling,
//! navigation and sending themselves happen outside this crate.

use vstd::prelude::*;

use crate::cache::Cache;
use crate::chat::MessageView;

verus! {

/// At most this many distinct conversations are ever admitted into
/// tracking, to bound memory and load.
pub const TRACKING_CAP: usize = 20;

/// A run ends fatally once more than this many errors have accumulated.
pub const ERROR_LIMIT: u8 = 10;

/// Abstract value of a [`ChatSummary`].
pub ghost struct SummaryView {
    pub id: Seq<char>,
    pub unread: bool,
}

/// One conversation as the source lists it: its id and whether it is
/// marked unread.
pub struct ChatSummary {
    pub id: String,
    pub unread: bool,
}

impl View for ChatSummary {
    type V = SummaryView;

    open spec fn view(&self) -> SummaryView {
        SummaryView { id: self.id@, unread: self.unread }
    }
}

impl DeepView for ChatSummary {
    type V = SummaryView;

    open spec fn deep_view(&self) -> SummaryView {
        self.view()
    }
}

/// Admission rule: a conversation is visited if it is unread, or if it is
/// not yet tracked and the tracking cap has not been reached.
pub open spec fn admitted(m: Map<Seq<char>, Seq<MessageView>>, c: SummaryView) -> bool {
    c.unread || (!m.dom().contains(c.id) && m.dom().len() < TRACKING_CAP)
}

/// The admitted conversations, in their listed order.
pub open spec fn admitted_list(m: Map<Seq<char>, Seq<MessageView>>, s: Seq<SummaryView>) -> Seq<
    SummaryView,
>
    decreases s.len(),
{
    if s.len() == 0 {
        Seq::empty()
    } else {
        let rest = admitted_list(m, s.drop_last());
        if admitted(m, s.last()) {
            rest.push(s.last())
        } else {
            rest
        }
    }
}

/// Filters the listed conversations down to those the admission rule
/// allows, preserving their order.
pub fn select_candidates(cache: &Cache, chats: Vec<ChatSummary>) -> (r: Vec<ChatSummary>)
    requires
        cache.wf(),
    ensures
        r.deep_view() == admitted_list(cache@, chats.deep_view()),
{
    let ghost s = chats.deep_view();
    let mut r: Vec<ChatSummary> = Vec::new();
    let mut rest = chats;
    let mut i: usize = 0;
    let n = rest.len();
    while i < n
        invariant
            i <= n,
            n == rest.len(),
            rest.deep_view() == s,
            cache.wf(),
            r.deep_view() =~= admitted_list(cache@, s.subrange(0, i as int)),
        decreases n - i,
    {
        let ghost r0 = r.deep_view();
        let take = rest[i].unread || (!cache.check_key(rest[i].id.as_str()) && cache.size()
            < TRACKING_CAP);
        if take {
            let c = ChatSummary { id: rest[i].id.clone(), unread: rest[i].unread };
            r.push(c);
            proof {
                assert(r.deep_view() =~= r0.push(s[i as int]));
            }
        }
        proof {
            assert(s.subrange(0, i as int + 1).drop_last() =~= s.subrange(0, i as int));
            assert(s.subrange(0, i as int + 1).last() == s[i as int]);
        }
        i += 1;
    }
    proof {
        assert(s.subrange(0, s.len() as int) =~= s);
    }
    r
}

/// Law: once the tracking cap is reached, a conversation that is neither
/// unread nor already tracked is never selected, however often it is
/// listed; so it is never visited and never enters the cache.
pub proof fn lemma_cap_blocks_new_conversations(
    m: Map<Seq<char>, Seq<MessageView>>,
    chats: Seq<SummaryView>,
    c: SummaryView,
)
    requires
        m.dom().len() >= TRACKING_CAP,
        !m.dom().contains(c.id),
        !c.unread,
    ensures
        !admitted_list(m, chats).contains(c),
    decreases chats.len(),
{
    if chats.len() > 0 {
        lemma_cap_blocks_new_conversations(m, chats.drop_last(), c);
        let rest = admitted_list(m, chats.drop_last());
        if admitted(m, chats.last()) {
            assert(chats.last() != c);
            assert forall|j: int|
                0 <= j < admitted_list(m, chats).len() implies admitted_list(m, chats)[j]
                != c by {
                if j < rest.len() {
                    assert(rest[j] != c);
                }
            }
        }
    }
}

/// The dispatch of one inbound wire request, decided by its sender field.
#[derive(Clone, Copy, PartialEq, Eq, Structural, Debug)]
pub enum Command {
    /// Capture a screenshot of the source (sentinel sender `<screenshot>`).
    Screenshot,
    /// Capture a page snapshot of the source (sentinel sender `<html>`).
    Snapshot,
    /// End the current supervised run cleanly (sentinel sender `<restart>`).
    Restart,
    /// Ask the source to reload (sentinel sender `<refresh>`).
    Refresh,
    /// File transfer; rejected as unimplemented (sentinel sender `<file>`).
    FileTransfer,
    /// Any other sender: an ordinary outbound chat message.
    Send,
}

/// Which command a sender field selects.
pub open spec fn classify_spec(sender: Seq<char>) -> Command {
    if sender == "<screenshot>"@ {
        Command::Screenshot
    } else if sender == "<html>"@ {
        Command::Snapshot
    } else if sender == "<restart>"@ {
        Command::Restart
    } else if sender == "<refresh>"@ {
        Command::Refresh
    } else if sender == "<file>"@ {
        Command::FileTransfer
    } else {
        Command::Send
    }
}

/// Classifies an inbound request's sender field: the reserved sentinel
/// values select diagnostic or control actions, anything else is an
/// ordinary outbound chat request.
pub fn classify(sender: &str) -> (c: Command)
    ensures
        c == classify_spec(sender@),
{
    let s = sender.to_owned();
    if s == "<screenshot>".to_owned() {
        Command::Screenshot
    } else if s == "<html>".to_owned() {
        Command::Snapshot
    } else if s == "<restart>".to_owned() {
        Command::Restart
    } else if s == "<refresh>".to_owned() {
        Command::Refresh
    } else if s == "<file>".to_owned() {
        Command::FileTransfer
    } else {
        Command::Send
    }
}

/// The shared error counter of one supervised run.
pub struct ErrorBudget {
    errors: u8,
}

impl ErrorBudget {
    /// How many errors have been recorded.
    pub closed spec fn count(&self) -> int {
        self.errors as int
    }

    /// A fresh run starts with no errors.
    pub fn new() -> (b: ErrorBudget)
        ensures
            b.count() == 0,
    {
        ErrorBudget { errors: 0 }
    }

    /// Records one failed step; returns whether the run's budget is now
    /// exceeded and the run must end fatally. The count saturates, so a
    /// caller that ignores the verdict cannot wrap it around.
    pub fn record_error(&mut self) -> (fatal: bool)
        ensures
            final(self).count() == if old(self).count() < u8::MAX as int {
                old(self).count() + 1
            } else {
                old(self).count()
            },
            fatal == (final(self).count() > ERROR_LIMIT as int),
    {
        if self.errors < u8::MAX {
            self.errors = self.errors + 1;
        }
        self.errors > ERROR_LIMIT
    }
}

} // verus!
