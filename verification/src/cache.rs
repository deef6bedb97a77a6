//! Per-conversation message history and the diff that decides which freshly
//! observed messages are genuinely new.
//!
//! The cache maps a conversation id to the most recently stored message
//! sequence (oldest first). A fresh sample is compared against that baseline
//! by a forward alignment scan; unmatched overrun at the end of the sample is
//! reported as new content, and a weak alignment falls back to a conservative
//! single-message signal.

use vstd::prelude::*;

use crate::chat::clone_messages;
use crate::chat::ChatMessage;
use crate::chat::MessageView;

verus! {

/// How many elements of the new sample must align forward through the old
/// baseline before the overrun is trusted as genuinely new content.
pub const ALIGNMENT_THRESHOLD: usize = 3;

struct Entry {
    id: String,
    msgs: Vec<ChatMessage>,
}

impl DeepView for Entry {
    type V = (Seq<char>, Seq<MessageView>);

    closed spec fn deep_view(&self) -> (Seq<char>, Seq<MessageView>) {
        (self.id@, self.msgs.deep_view())
    }
}

/// The mapping an entry sequence denotes: later entries shadow earlier ones,
/// though a well-formed cache never holds a key twice.
pub open spec fn map_of(s: Seq<(Seq<char>, Seq<MessageView>)>) -> Map<
    Seq<char>,
    Seq<MessageView>,
>
    decreases s.len(),
{
    if s.len() == 0 {
        Map::empty()
    } else {
        map_of(s.drop_last()).insert(s.last().0, s.last().1)
    }
}

pub open spec fn distinct_keys(s: Seq<(Seq<char>, Seq<MessageView>)>) -> bool {
    forall|i: int, j: int| 0 <= i < j < s.len() ==> s[i].0 != s[j].0
}

proof fn lemma_map_of_dom(s: Seq<(Seq<char>, Seq<MessageView>)>)
    ensures
        forall|k: Seq<char>|
            #[trigger] map_of(s).dom().contains(k) <==> exists|i: int|
                0 <= i < s.len() && #[trigger] s[i].0 == k,
    decreases s.len(),
{
    if s.len() > 0 {
        lemma_map_of_dom(s.drop_last());
        assert forall|k: Seq<char>| #[trigger]
            map_of(s).dom().contains(k) implies exists|i: int|
            0 <= i < s.len() && #[trigger] s[i].0 == k by {
            if k == s.last().0 {
                assert(s[s.len() - 1].0 == k);
            } else {
                assert(map_of(s) == map_of(s.drop_last()).insert(s.last().0, s.last().1));
                assert(map_of(s.drop_last()).dom().contains(k));
                let i = choose|i: int| 0 <= i < s.drop_last().len() && #[trigger] s.drop_last()[i].0
                    == k;
                assert(s.drop_last()[i] == s[i]);
                assert(s[i].0 == k);
            }
        }
        assert forall|k: Seq<char>|
            (exists|i: int| 0 <= i < s.len() && #[trigger] s[i].0 == k) implies #[trigger] map_of(
            s,
        ).dom().contains(k) by {
            let i = choose|i: int| 0 <= i < s.len() && #[trigger] s[i].0 == k;
            if i < s.len() - 1 {
                assert(s.drop_last()[i].0 == k);
            }
        }
    }
}

proof fn lemma_map_of_index(s: Seq<(Seq<char>, Seq<MessageView>)>, i: int)
    requires
        distinct_keys(s),
        0 <= i < s.len(),
    ensures
        map_of(s).dom().contains(s[i].0),
        map_of(s)[s[i].0] == s[i].1,
    decreases s.len(),
{
    if i == s.len() - 1 {
    } else {
        assert(s.drop_last()[i] == s[i]);
        lemma_map_of_index(s.drop_last(), i);
        assert(s[i].0 != s.last().0);
    }
}

proof fn lemma_map_of_len(s: Seq<(Seq<char>, Seq<MessageView>)>)
    requires
        distinct_keys(s),
    ensures
        map_of(s).dom().finite(),
        map_of(s).dom().len() == s.len(),
    decreases s.len(),
{
    if s.len() > 0 {
        lemma_map_of_len(s.drop_last());
        lemma_map_of_dom(s.drop_last());
        assert(forall|i: int|
            0 <= i < s.drop_last().len() ==> #[trigger] s.drop_last()[i].0 != s.last().0);
        assert(!map_of(s.drop_last()).dom().contains(s.last().0));
    }
}

proof fn lemma_map_of_push(s: Seq<(Seq<char>, Seq<MessageView>)>, e: (Seq<char>, Seq<MessageView>))
    ensures
        map_of(s.push(e)) == map_of(s).insert(e.0, e.1),
{
    assert(s.push(e).drop_last() =~= s);
    assert(s.push(e).last() == e);
}

proof fn lemma_map_of_update(s: Seq<(Seq<char>, Seq<MessageView>)>, i: int, v: Seq<MessageView>)
    requires
        distinct_keys(s),
        0 <= i < s.len(),
    ensures
        map_of(s.update(i, (s[i].0, v))) == map_of(s).insert(s[i].0, v),
    decreases s.len(),
{
    let t = s.update(i, (s[i].0, v));
    if i == s.len() - 1 {
        assert(t.drop_last() =~= s.drop_last());
        assert(map_of(t) == map_of(s.drop_last()).insert(s[i].0, v));
        assert(map_of(s.drop_last()).insert(s.last().0, s.last().1).insert(s[i].0, v) =~= map_of(
            s.drop_last(),
        ).insert(s[i].0, v));
    } else {
        assert(t.drop_last() =~= s.drop_last().update(i, (s[i].0, v)));
        assert(s.drop_last()[i] == s[i]);
        lemma_map_of_update(s.drop_last(), i, v);
        assert(t.last() == s.last());
        assert(map_of(t) == map_of(s.drop_last()).insert(s[i].0, v).insert(s.last().0, s.last().1));
        assert(s[i].0 != s.last().0);
        assert(map_of(s.drop_last()).insert(s[i].0, v).insert(s.last().0, s.last().1) =~= map_of(
            s.drop_last(),
        ).insert(s.last().0, s.last().1).insert(s[i].0, v));
    }
}

/// Forward alignment scan. Walks the old baseline with cursor `o` and the
/// new sample with cursor `n`; a match advances `n`, every step advances `o`.
/// `Some(n)` is the number of matches when `o` exhausts the baseline; `None`
/// means `n` reached the end of the sample first.
pub open spec fn scan(old: Seq<MessageView>, new: Seq<MessageView>, o: int, n: int) -> Option<int>
    decreases old.len() - o,
{
    if !(0 <= o < old.len() && 0 <= n < new.len()) {
        None
    } else {
        let n2 = if old[o] == new[n] {
            n + 1
        } else {
            n
        };
        if o + 1 == old.len() {
            Some(n2)
        } else if n2 == new.len() {
            None
        } else {
            scan(old, new, o + 1, n2)
        }
    }
}

/// What the diff reports for a seen, non-empty, changed baseline.
pub open spec fn diff_result(old: Seq<MessageView>, new: Seq<MessageView>) -> Option<
    Seq<MessageView>,
>
    recommends
        old.len() > 0,
        new.len() > 0,
{
    match scan(old, new, 0, 0) {
        None => None,
        Some(n) => if n > ALIGNMENT_THRESHOLD {
            Some(new.subrange(n, new.len() as int))
        } else if old.last() != new.last() {
            Some(seq![new.last()])
        } else {
            None
        },
    }
}

/// The stored mapping after a call of [`Cache::check`].
pub open spec fn check_updates(
    m: Map<Seq<char>, Seq<MessageView>>,
    k: Seq<char>,
    nv: Seq<MessageView>,
) -> Map<Seq<char>, Seq<MessageView>> {
    if !m.dom().contains(k) || m[k].len() == 0 {
        m.insert(k, nv)
    } else if nv.len() == 0 || nv == m[k] {
        m
    } else {
        m.insert(k, nv)
    }
}

/// The new-message report of a call of [`Cache::check`].
pub open spec fn check_reports(
    m: Map<Seq<char>, Seq<MessageView>>,
    k: Seq<char>,
    nv: Seq<MessageView>,
) -> Option<Seq<MessageView>> {
    if !m.dom().contains(k) || m[k].len() == 0 || nv.len() == 0 || nv == m[k] {
        None
    } else {
        diff_result(m[k], nv)
    }
}

/// Per-conversation history of the most recently observed messages.
pub struct Cache {
    entries: Vec<Entry>,
}

impl View for Cache {
    type V = Map<Seq<char>, Seq<MessageView>>;

    closed spec fn view(&self) -> Map<Seq<char>, Seq<MessageView>> {
        map_of(self.entries.deep_view())
    }
}

impl Cache {
    /// No conversation id is tracked twice.
    pub closed spec fn wf(&self) -> bool {
        distinct_keys(self.entries.deep_view())
    }

    /// An empty cache.
    pub fn new() -> (c: Cache)
        ensures
            c.wf(),
            c@ == Map::<Seq<char>, Seq<MessageView>>::empty(),
    {
        let c = Cache { entries: Vec::new() };
        proof {
            assert(c.entries.deep_view() =~= Seq::<(Seq<char>, Seq<MessageView>)>::empty());
        }
        c
    }

    fn find(&self, key: &String) -> (r: Option<usize>)
        ensures
            match r {
                Some(i) => i < self.entries.len() && self.entries.deep_view()[i as int].0 == key@,
                None => forall|j: int|
                    0 <= j < self.entries.len() ==> #[trigger] self.entries.deep_view()[j].0
                        != key@,
            },
    {
        let mut i: usize = 0;
        while i < self.entries.len()
            invariant
                i <= self.entries.len(),
                forall|j: int|
                    0 <= j < i ==> #[trigger] self.entries.deep_view()[j].0 != key@,
            decreases self.entries.len() - i,
        {
            if self.entries[i].id == *key {
                return Some(i);
            }
            i += 1;
        }
        None
    }

    /// Whether a conversation id is tracked. No mutation.
    pub fn check_key(&self, key: &str) -> (r: bool)
        ensures
            r == self@.dom().contains(key@),
    {
        let k = key.to_owned();
        proof {
            lemma_map_of_dom(self.entries.deep_view());
        }
        match self.find(&k) {
            Some(i) => {
                assert(self.entries.deep_view()[i as int].0 == key@);
                true
            },
            None => false,
        }
    }

    /// The count of tracked conversations.
    pub fn size(&self) -> (n: usize)
        requires
            self.wf(),
        ensures
            n == self@.dom().len(),
    {
        proof {
            lemma_map_of_len(self.entries.deep_view());
        }
        self.entries.len()
    }

    /// Diffs a fresh sample against the stored baseline of `chat_id` and
    /// reports the genuinely new messages, if any.
    ///
    /// An unseen conversation and a baseline recorded as empty just store
    /// the sample; an empty sample never erases history; an unchanged sample
    /// reports nothing. Otherwise the sample replaces the baseline and the
    /// forward alignment scan decides the report: overrun past more than
    /// [`ALIGNMENT_THRESHOLD`] matched elements is returned as the new tail,
    /// and a weaker alignment falls back to reporting just the last message,
    /// if it changed.
    pub fn check(&mut self, chat_id: &str, new_messages: &Vec<ChatMessage>) -> (res: Option<
        Vec<ChatMessage>,
    >)
        requires
            old(self).wf(),
        ensures
            final(self).wf(),
            final(self)@ == check_updates(old(self)@, chat_id@, new_messages.deep_view()),
            res.deep_view() == check_reports(old(self)@, chat_id@, new_messages.deep_view()),
    {
        let ghost s0 = self.entries.deep_view();
        let ghost nv = new_messages.deep_view();
        let key = chat_id.to_owned();
        proof {
            lemma_map_of_dom(s0);
        }
        let idx = match self.find(&key) {
            None => {
                let stored = clone_messages(new_messages);
                self.entries.push(Entry { id: key, msgs: stored });
                proof {
                    assert(self.entries.deep_view() =~= s0.push((chat_id@, nv)));
                    lemma_map_of_push(s0, (chat_id@, nv));
                    assert(!old(self)@.dom().contains(chat_id@));
                }
                return None;
            },
            Some(i) => i,
        };
        proof {
            lemma_map_of_index(s0, idx as int);
            assert(old(self)@[chat_id@] == s0[idx as int].1);
        }
        if self.entries[idx].msgs.len() == 0 {
            let stored = clone_messages(new_messages);
            self.entries.set(idx, Entry { id: key, msgs: stored });
            proof {
                assert(self.entries.deep_view() =~= s0.update(idx as int, (s0[idx as int].0, nv)));
                lemma_map_of_update(s0, idx as int, nv);
            }
            return None;
        }
        if new_messages.len() == 0 {
            return None;
        }
        if messages_equal(&self.entries[idx].msgs, new_messages) {
            return None;
        }
        // The sample differs from a non-empty baseline: run the alignment
        // scan, remember whether the last element changed, then store the
        // sample as the new baseline.
        let verdict = scan_messages(&self.entries[idx].msgs, new_messages);
        let last_changed = {
            let lo = &self.entries[idx].msgs[self.entries[idx].msgs.len() - 1];
            let ln = &new_messages[new_messages.len() - 1];
            !(lo == ln)
        };
        let stored = clone_messages(new_messages);
        self.entries.set(idx, Entry { id: key, msgs: stored });
        proof {
            assert(self.entries.deep_view() =~= s0.update(idx as int, (s0[idx as int].0, nv)));
            lemma_map_of_update(s0, idx as int, nv);
        }
        match verdict {
            None => None,
            Some(n) => {
                if n > ALIGNMENT_THRESHOLD {
                    Some(clone_suffix(new_messages, n))
                } else if last_changed {
                    let mut one: Vec<ChatMessage> = Vec::new();
                    one.push(new_messages[new_messages.len() - 1].clone());
                    proof {
                        assert(one.deep_view() =~= seq![nv.last()]);
                    }
                    Some(one)
                } else {
                    None
                }
            },
        }
    }
}

/// Element-wise copy of the tail of a message vector, from `n` on.
fn clone_suffix(v: &Vec<ChatMessage>, n: usize) -> (r: Vec<ChatMessage>)
    requires
        n <= v.len(),
    ensures
        r.deep_view() == v.deep_view().subrange(n as int, v.len() as int),
{
    let mut r: Vec<ChatMessage> = Vec::new();
    let mut i: usize = n;
    while i < v.len()
        invariant
            n <= i <= v.len(),
            r.deep_view() =~= v.deep_view().subrange(n as int, i as int),
        decreases v.len() - i,
    {
        let ghost r0 = r.deep_view();
        r.push(v[i].clone());
        proof {
            assert(r.deep_view() =~= r0.push(v.deep_view()[i as int]));
            assert(r.deep_view() =~= v.deep_view().subrange(n as int, i as int + 1));
        }
        i += 1;
    }
    r
}

/// Element-wise equality of two message vectors.
fn messages_equal(a: &Vec<ChatMessage>, b: &Vec<ChatMessage>) -> (r: bool)
    ensures
        r == (a.deep_view() == b.deep_view()),
{
    if a.len() != b.len() {
        proof {
            assert(a.deep_view().len() != b.deep_view().len());
        }
        return false;
    }
    let mut i: usize = 0;
    while i < a.len()
        invariant
            i <= a.len(),
            a.len() == b.len(),
            forall|j: int| 0 <= j < i ==> a.deep_view()[j] == b.deep_view()[j],
        decreases a.len() - i,
    {
        if !(&a[i] == &b[i]) {
            proof {
                assert(a.deep_view()[i as int] != b.deep_view()[i as int]);
            }
            return false;
        }
        i += 1;
    }
    proof {
        assert(a.deep_view() =~= b.deep_view());
    }
    true
}

/// Runs the forward alignment scan; mirrors [`scan`].
fn scan_messages(old_msgs: &Vec<ChatMessage>, new_msgs: &Vec<ChatMessage>) -> (r: Option<usize>)
    requires
        old_msgs.len() > 0,
        new_msgs.len() > 0,
    ensures
        scan(old_msgs.deep_view(), new_msgs.deep_view(), 0, 0) == match r {
            Some(n) => Some(n as int),
            None => None::<int>,
        },
        r matches Some(n) ==> n <= new_msgs.len(),
{
    let ghost ov = old_msgs.deep_view();
    let ghost nv = new_msgs.deep_view();
    let mut o: usize = 0;
    let mut n: usize = 0;
    loop
        invariant
            o < old_msgs.len(),
            n < new_msgs.len(),
            ov == old_msgs.deep_view(),
            nv == new_msgs.deep_view(),
            scan(ov, nv, o as int, n as int) == scan(ov, nv, 0, 0),
        decreases old_msgs.len() - o,
    {
        let ghost o0 = o as int;
        let ghost n0 = n as int;
        if &old_msgs[o] == &new_msgs[n] {
            n += 1;
        }
        o += 1;
        if o == old_msgs.len() {
            assert(scan(ov, nv, o0, n0) == Some(n as int));
            return Some(n);
        }
        if n == new_msgs.len() {
            assert(scan(ov, nv, o0, n0) == None::<int>);
            return None;
        }
        assert(scan(ov, nv, o0, n0) == scan(ov, nv, o as int, n as int));
    }
}

/// Law: resampling an unchanged conversation reports nothing and leaves the
/// cache exactly as it was.
pub proof fn lemma_identical_sample_is_silent(
    m: Map<Seq<char>, Seq<MessageView>>,
    k: Seq<char>,
    s: Seq<MessageView>,
)
    requires
        m.dom().contains(k),
        m[k] == s,
    ensures
        check_reports(m, k, s) is None,
        check_updates(m, k, s) == m,
{
    if m[k].len() == 0 {
        assert(check_updates(m, k, s) =~= m);
    }
}

/// Law: a conversation never seen before reports nothing, and is tracked,
/// with the sample as its baseline, afterwards.
pub proof fn lemma_first_sight_tracks(
    m: Map<Seq<char>, Seq<MessageView>>,
    k: Seq<char>,
    nv: Seq<MessageView>,
)
    requires
        !m.dom().contains(k),
    ensures
        check_reports(m, k, nv) is None,
        check_updates(m, k, nv).dom().contains(k),
        check_updates(m, k, nv)[k] == nv,
{
}

/// Law: an empty sample reports nothing and leaves the stored baseline of
/// the conversation unchanged.
pub proof fn lemma_empty_sample_is_ignored(
    m: Map<Seq<char>, Seq<MessageView>>,
    k: Seq<char>,
    nv: Seq<MessageView>,
)
    requires
        m.dom().contains(k),
        nv.len() == 0,
    ensures
        check_reports(m, k, nv) is None,
        check_updates(m, k, nv) == m,
{
    if m[k].len() == 0 {
        assert(m[k] =~= nv);
        assert(check_updates(m, k, nv) =~= m);
    }
}

} // verus!
