//! The subscription registry.
//!
//! The registry owns the set of subscriptions: (recipient, channel,
//! creation timestamp) rows whose (recipient, channel) pairs are unique and
//! whose channel names are valid. The rows are kept sorted by channel name,
//! then by recipient, so that listing them is stable and reproducible and
//! uniqueness follows from strictness of the order.

use vstd::prelude::*;

use crate::channel::{valid_channel, validate_channel_name};
use crate::order::{
    lemma_str_lt_connected, lemma_str_lt_irreflexive, lemma_str_lt_transitive, str_lt, str_lt_exec,
};

verus! {

/// One subscription row: a recipient registered to a channel at some time.
pub struct Subscription {
    pub recipient: i64,
    pub channel: String,
    pub created_at: i64,
}

/// Outcome of a subscribe call.
#[derive(Debug, PartialEq, Eq)]
pub enum SubscribeOutcome {
    Subscribed,
    AlreadySubscribed,
    InvalidChannelName,
}

/// Outcome of an unsubscribe call.
#[derive(Debug, PartialEq, Eq)]
pub enum UnsubscribeOutcome {
    Removed,
    NotSubscribed,
    InvalidChannelName,
}

/// `x` comes strictly before the pair (`recipient`, `channel`) in the
/// registry's order: by channel name first, then by recipient.
pub open spec fn entry_before_pair(x: Subscription, recipient: i64, channel: Seq<char>) -> bool {
    str_lt(x.channel@, channel) || (x.channel@ == channel && x.recipient < recipient)
}

/// `x` comes strictly before `y`: by channel name first, then by recipient.
pub open spec fn sub_before(x: Subscription, y: Subscription) -> bool {
    entry_before_pair(x, y.recipient, y.channel@)
}

/// Strictly sorted by channel name, then recipient; strictness makes every
/// (recipient, channel) pair unique.
pub open spec fn subs_sorted(s: Seq<Subscription>) -> bool {
    forall|i: int, j: int| 0 <= i < j < s.len() ==> sub_before(s[i], s[j])
}

/// Every row's channel name is valid.
pub open spec fn subs_channels_valid(s: Seq<Subscription>) -> bool {
    forall|i: int| 0 <= i < s.len() ==> valid_channel(s[i].channel@)
}

/// Some row carries this (recipient, channel) pair.
pub open spec fn contains_pair(s: Seq<Subscription>, recipient: i64, channel: Seq<char>) -> bool {
    exists|i: int| 0 <= i < s.len() && s[i].recipient == recipient && s[i].channel@ == channel
}

/// How many rows carry this (recipient, channel) pair.
pub open spec fn pair_count(s: Seq<Subscription>, recipient: i64, channel: Seq<char>) -> nat
    decreases s.len(),
{
    if s.len() == 0 {
        0
    } else {
        pair_count(s.drop_last(), recipient, channel) + if s.last().recipient == recipient
            && s.last().channel@ == channel {
            1nat
        } else {
            0nat
        }
    }
}

/// The recipients of the rows whose channel is `channel`, in row order.
pub open spec fn recipients_in(s: Seq<Subscription>, channel: Seq<char>) -> Seq<i64>
    decreases s.len(),
{
    if s.len() == 0 {
        Seq::empty()
    } else {
        recipients_in(s.drop_last(), channel) + if s.last().channel@ == channel {
            seq![s.last().recipient]
        } else {
            Seq::empty()
        }
    }
}

/// Some row names this recipient, on any channel.
pub open spec fn is_recipient(s: Seq<Subscription>, recipient: i64) -> bool {
    exists|i: int| 0 <= i < s.len() && s[i].recipient == recipient
}

/// How often `x` occurs in a sequence of recipients.
pub open spec fn occurrences(s: Seq<i64>, x: i64) -> nat
    decreases s.len(),
{
    if s.len() == 0 {
        0
    } else {
        occurrences(s.drop_last(), x) + if s.last() == x {
            1nat
        } else {
            0nat
        }
    }
}

/// `post` is `pre` with one row for (`recipient`, `channel`, `created_at`)
/// inserted at position `i`.
pub open spec fn inserted_at(
    pre: Seq<Subscription>,
    post: Seq<Subscription>,
    i: int,
    recipient: i64,
    channel: Seq<char>,
    created_at: i64,
) -> bool {
    &&& 0 <= i <= pre.len()
    &&& post.len() == pre.len() + 1
    &&& forall|j: int| 0 <= j < i ==> post[j] == pre[j]
    &&& forall|j: int| i <= j < pre.len() ==> post[j + 1] == pre[j]
    &&& post[i].recipient == recipient
    &&& post[i].channel@ == channel
    &&& post[i].created_at == created_at
}

/// `post` is `pre` with the row at position `i` — which carried the pair
/// (`recipient`, `channel`) — removed.
pub open spec fn removed_at(
    pre: Seq<Subscription>,
    post: Seq<Subscription>,
    i: int,
    recipient: i64,
    channel: Seq<char>,
) -> bool {
    &&& 0 <= i < pre.len()
    &&& post.len() == pre.len() - 1
    &&& pre[i].recipient == recipient
    &&& pre[i].channel@ == channel
    &&& forall|j: int| 0 <= j < i ==> post[j] == pre[j]
    &&& forall|j: int| i < j < pre.len() ==> post[j - 1] == pre[j]
}

pub proof fn lemma_sub_before_transitive(x: Subscription, y: Subscription, z: Subscription)
    requires
        sub_before(x, y),
        sub_before(y, z),
    ensures
        sub_before(x, z),
{
    if str_lt(x.channel@, y.channel@) && str_lt(y.channel@, z.channel@) {
        lemma_str_lt_transitive(x.channel@, y.channel@, z.channel@);
    }
}

/// The registry: the owner of the subscription rows.
pub struct Registry {
    subs: Vec<Subscription>,
}

impl View for Registry {
    type V = Seq<Subscription>;

    closed spec fn view(&self) -> Seq<Subscription> {
        self.subs@
    }
}

impl Registry {
    /// Well-formed: sorted (hence pairwise-unique) rows, valid channel names.
    pub open spec fn wf(&self) -> bool {
        subs_sorted(self@) && subs_channels_valid(self@)
    }

    /// An empty registry.
    pub fn new() -> (r: Registry)
        ensures
            r@ == Seq::<Subscription>::empty(),
            r.wf(),
    {
        Registry { subs: Vec::new() }
    }

    /// Registers `recipient` to `channel` at time `created_at`. The channel
    /// name is validated before anything else; a duplicate (recipient,
    /// channel) pair is reported as `AlreadySubscribed`, distinguishably from
    /// every other outcome, and leaves the registry unchanged.
    pub fn subscribe(&mut self, recipient: i64, channel: &str, created_at: i64) -> (r:
        SubscribeOutcome)
        requires
            old(self).wf(),
        ensures
            final(self).wf(),
            !valid_channel(channel@) ==> r == SubscribeOutcome::InvalidChannelName && final(self)@
                == old(self)@,
            valid_channel(channel@) && contains_pair(old(self)@, recipient, channel@) ==> r
                == SubscribeOutcome::AlreadySubscribed && final(self)@ == old(self)@,
            valid_channel(channel@) && !contains_pair(old(self)@, recipient, channel@) ==> r
                == SubscribeOutcome::Subscribed && exists|i: int|
                inserted_at(old(self)@, final(self)@, i, recipient, channel@, created_at),
            forall|r2: i64, c2: Seq<char>|
                #![auto]
                contains_pair(final(self)@, r2, c2) <==> contains_pair(old(self)@, r2, c2) || (
                valid_channel(channel@) && r2 == recipient && c2 == channel@),
    {
        if !validate_channel_name(channel) {
            return SubscribeOutcome::InvalidChannelName;
        }
        let chan: String = channel.to_owned();
        let n = self.subs.len();
        let mut k: usize = 0;
        loop
            invariant
                old(self).wf(),
                self@ == old(self)@,
                n == self@.len(),
                0 <= k <= n,
                chan@ == channel@,
                valid_channel(channel@),
                forall|j: int| 0 <= j < k ==> entry_before_pair(self@[j], recipient, channel@),
            ensures
                self@ == old(self)@,
                0 <= k <= n,
                chan@ == channel@,
                forall|j: int| 0 <= j < k ==> entry_before_pair(self@[j], recipient, channel@),
                k < n ==> !entry_before_pair(self@[k as int], recipient, channel@),
            decreases n - k,
        {
            if k == n {
                break;
            }
            let e = &self.subs[k];
            let before = if str_lt_exec(e.channel.as_str(), channel) {
                true
            } else {
                e.channel == chan && e.recipient < recipient
            };
            if !before {
                break;
            }
            k = k + 1;
        }
        let ghost pre = self@;
        if k < self.subs.len() {
            let e = &self.subs[k];
            if e.recipient == recipient && e.channel == chan {
                proof {
                    assert(contains_pair(pre, recipient, channel@));
                }
                return SubscribeOutcome::AlreadySubscribed;
            }
        }
        proof {
            assert forall|m: int| 0 <= m < n implies !(pre[m].recipient == recipient
                && pre[m].channel@ == channel@) by {
                if pre[m].recipient == recipient && pre[m].channel@ == channel@ {
                    if m < k {
                        assert(entry_before_pair(pre[m], recipient, channel@));
                        lemma_str_lt_irreflexive(channel@);
                    } else if m == k {
                        assert(false);
                    } else {
                        assert(sub_before(pre[k as int], pre[m]));
                        assert(entry_before_pair(pre[k as int], recipient, channel@));
                    }
                }
            }
            assert(!contains_pair(pre, recipient, channel@));
        }
        let sub = Subscription { recipient, channel: chan, created_at };
        proof {
            // The new row goes strictly after everything before position k
            // and strictly before everything from position k on.
            if k < n {
                if !str_lt(channel@, pre[k as int].channel@) {
                    lemma_str_lt_connected(channel@, pre[k as int].channel@);
                }
                assert(sub_before(sub, pre[k as int]));
                assert forall|j: int| k <= j < n implies sub_before(sub, pre[j]) by {
                    if j > k {
                        lemma_sub_before_transitive(sub, pre[k as int], pre[j]);
                    }
                }
            }
            pre.insert_ensures(k as int, sub);
        }
        self.subs.insert(k, sub);
        proof {
            let post = self@;
            assert(inserted_at(pre, post, k as int, recipient, channel@, created_at));
            assert forall|i: int, j: int| 0 <= i < j < post.len() implies sub_before(
                post[i],
                post[j],
            ) by {
                if j < k {
                    assert(sub_before(pre[i], pre[j]));
                } else if j == k {
                    assert(post[j] == sub);
                    assert(sub_before(pre[i], sub));
                } else if i < k {
                    assert(post[j] == pre[j - 1]);
                    assert(sub_before(pre[i], pre[j - 1]));
                } else if i == k {
                    assert(post[i] == sub);
                    assert(sub_before(sub, pre[j - 1]));
                } else {
                    assert(sub_before(pre[i - 1], pre[j - 1]));
                }
            }
            assert(subs_channels_valid(post));
            assert forall|r2: i64, c2: Seq<char>| #![auto] contains_pair(post, r2, c2) implies
                contains_pair(pre, r2, c2) || (r2 == recipient && c2 == channel@) by {
                let m = choose|m: int|
                    0 <= m < post.len() && post[m].recipient == r2 && post[m].channel@ == c2;
                if m < k {
                    assert(pre[m].recipient == r2 && pre[m].channel@ == c2);
                } else if m > k {
                    assert(pre[m - 1].recipient == r2 && pre[m - 1].channel@ == c2);
                }
            }
            assert forall|r2: i64, c2: Seq<char>| #![auto] contains_pair(pre, r2, c2) implies
                contains_pair(post, r2, c2) by {
                let m = choose|m: int|
                    0 <= m < pre.len() && pre[m].recipient == r2 && pre[m].channel@ == c2;
                if m < k {
                    assert(post[m].recipient == r2 && post[m].channel@ == c2);
                } else {
                    assert(post[m + 1].recipient == r2 && post[m + 1].channel@ == c2);
                }
            }
            assert(contains_pair(post, recipient, channel@)) by {
                assert(post[k as int].recipient == recipient && post[k as int].channel@
                    == channel@);
            }
        }
        SubscribeOutcome::Subscribed
    }

    /// Removes the subscription of `recipient` to `channel`. The channel name
    /// is validated before anything else. Absence of the pair is a normal
    /// outcome, `NotSubscribed`, never an error, and leaves the registry
    /// unchanged.
    pub fn unsubscribe(&mut self, recipient: i64, channel: &str) -> (r: UnsubscribeOutcome)
        requires
            old(self).wf(),
        ensures
            final(self).wf(),
            !valid_channel(channel@) ==> r == UnsubscribeOutcome::InvalidChannelName
                && final(self)@ == old(self)@,
            valid_channel(channel@) && !contains_pair(old(self)@, recipient, channel@) ==> r
                == UnsubscribeOutcome::NotSubscribed && final(self)@ == old(self)@,
            valid_channel(channel@) && contains_pair(old(self)@, recipient, channel@) ==> r
                == UnsubscribeOutcome::Removed && exists|i: int|
                removed_at(old(self)@, final(self)@, i, recipient, channel@),
            forall|r2: i64, c2: Seq<char>|
                #![auto]
                contains_pair(final(self)@, r2, c2) <==> contains_pair(old(self)@, r2, c2) && !(
                valid_channel(channel@) && r2 == recipient && c2 == channel@),
    {
        if !validate_channel_name(channel) {
            return UnsubscribeOutcome::InvalidChannelName;
        }
        let chan: String = channel.to_owned();
        let n = self.subs.len();
        let mut i: usize = 0;
        loop
            invariant
                old(self).wf(),
                self@ == old(self)@,
                n == self@.len(),
                0 <= i <= n,
                chan@ == channel@,
                forall|j: int|
                    0 <= j < i ==> !(self@[j].recipient == recipient && self@[j].channel@
                        == channel@),
            ensures
                self@ == old(self)@,
                0 <= i <= n,
                chan@ == channel@,
                forall|j: int|
                    0 <= j < i ==> !(self@[j].recipient == recipient && self@[j].channel@
                        == channel@),
                i < n ==> self@[i as int].recipient == recipient && self@[i as int].channel@
                    == channel@,
            decreases n - i,
        {
            if i == n {
                break;
            }
            let e = &self.subs[i];
            if e.recipient == recipient && e.channel == chan {
                break;
            }
            i = i + 1;
        }
        let ghost pre = self@;
        if i == self.subs.len() {
            proof {
                assert(!contains_pair(pre, recipient, channel@));
            }
            return UnsubscribeOutcome::NotSubscribed;
        }
        proof {
            // Strict sortedness leaves room for only one row with this pair.
            assert forall|m: int| 0 <= m < n && m != i implies !(pre[m].recipient == recipient
                && pre[m].channel@ == channel@) by {
                if pre[m].recipient == recipient && pre[m].channel@ == channel@ {
                    if m < i {
                        assert(sub_before(pre[m], pre[i as int]));
                    } else {
                        assert(sub_before(pre[i as int], pre[m]));
                    }
                    lemma_str_lt_irreflexive(channel@);
                }
            }
            pre.remove_ensures(i as int);
        }
        self.subs.remove(i);
        proof {
            let post = self@;
            assert(removed_at(pre, post, i as int, recipient, channel@));
            assert forall|a: int, b: int| 0 <= a < b < post.len() implies sub_before(
                post[a],
                post[b],
            ) by {
                if b < i {
                    assert(sub_before(pre[a], pre[b]));
                } else if a < i {
                    assert(sub_before(pre[a], pre[b + 1]));
                } else {
                    assert(sub_before(pre[a + 1], pre[b + 1]));
                }
            }
            assert(subs_channels_valid(post));
            assert forall|r2: i64, c2: Seq<char>| #![auto] contains_pair(post, r2, c2) implies
                contains_pair(pre, r2, c2) && !(r2 == recipient && c2 == channel@) by {
                let m = choose|m: int|
                    0 <= m < post.len() && post[m].recipient == r2 && post[m].channel@ == c2;
                if m < i {
                    assert(pre[m].recipient == r2 && pre[m].channel@ == c2);
                    assert(m != i);
                } else {
                    assert(pre[m + 1].recipient == r2 && pre[m + 1].channel@ == c2);
                    assert(m + 1 != i);
                }
            }
            assert forall|r2: i64, c2: Seq<char>| #![auto] contains_pair(pre, r2, c2) && !(r2
                == recipient && c2 == channel@) implies contains_pair(post, r2, c2) by {
                let m = choose|m: int|
                    0 <= m < pre.len() && pre[m].recipient == r2 && pre[m].channel@ == c2;
                assert(m != i);
                if m < i {
                    assert(post[m].recipient == r2 && post[m].channel@ == c2);
                } else {
                    assert(post[m - 1].recipient == r2 && post[m - 1].channel@ == c2);
                }
            }
        }
        UnsubscribeOutcome::Removed
    }

    /// The recipients subscribed to `channel`, in registry order. A channel
    /// nobody subscribes to — including one that never existed — yields an
    /// empty vector, never an error.
    pub fn recipients_of(&self, channel: &str) -> (r: Vec<i64>)
        ensures
            r@ == recipients_in(self@, channel@),
    {
        let chan: String = channel.to_owned();
        let mut r: Vec<i64> = Vec::new();
        let n = self.subs.len();
        proof {
            assert(self@.take(0) =~= Seq::<Subscription>::empty());
        }
        let mut i: usize = 0;
        while i < n
            invariant
                n == self@.len(),
                0 <= i <= n,
                chan@ == channel@,
                r@ == recipients_in(self@.take(i as int), channel@),
            decreases n - i,
        {
            proof {
                assert(self@.take(i as int + 1).drop_last() =~= self@.take(i as int));
                assert(self@.take(i as int + 1).last() == self@[i as int]);
            }
            if self.subs[i].channel == chan {
                r.push(self.subs[i].recipient);
                proof {
                    assert(r@ =~= recipients_in(self@.take(i as int + 1), channel@));
                }
            } else {
                proof {
                    assert(r@ =~= recipients_in(self@.take(i as int + 1), channel@));
                }
            }
            i = i + 1;
        }
        proof {
            assert(self@.take(n as int) =~= self@);
        }
        r
    }

    /// The distinct recipients over every channel: a recipient subscribed to
    /// several channels appears once.
    pub fn all_recipients(&self) -> (r: Vec<i64>)
        ensures
            forall|x: i64| r@.contains(x) <==> is_recipient(self@, x),
            forall|i: int, j: int| 0 <= i < j < r@.len() ==> r@[i] != r@[j],
    {
        let mut r: Vec<i64> = Vec::new();
        let n = self.subs.len();
        let mut i: usize = 0;
        while i < n
            invariant
                n == self@.len(),
                0 <= i <= n,
                forall|x: i64| r@.contains(x) <==> is_recipient(self@.take(i as int), x),
                forall|a: int, b: int| 0 <= a < b < r@.len() ==> r@[a] != r@[b],
            decreases n - i,
        {
            let x = self.subs[i].recipient;
            if !vec_contains_i64(&r, x) {
                let ghost prev = r@;
                r.push(x);
                proof {
                    assert(r@ == prev.push(x));
                    assert forall|a: int, b: int| 0 <= a < b < r@.len() implies r@[a] != r@[b] by {
                        if b == r@.len() - 1 {
                            assert(prev[a] == r@[a]);
                            assert(prev.contains(prev[a]));
                        }
                    }
                    assert forall|y: i64|
                        r@.contains(y) <==> is_recipient(self@.take(i as int + 1), y) by {
                        lemma_is_recipient_take_step(self@, i as int, y);
                        if r@.contains(y) {
                            let m = choose|m: int| 0 <= m < r@.len() && r@[m] == y;
                            if m < r@.len() - 1 {
                                assert(prev[m] == y);
                                assert(prev.contains(y));
                            } else {
                                assert(y == x);
                            }
                        }
                        if is_recipient(self@.take(i as int + 1), y) {
                            if y == x {
                                assert(r@[r@.len() - 1] == x);
                                assert(r@.contains(x));
                            } else {
                                assert(is_recipient(self@.take(i as int), y));
                                assert(prev.contains(y));
                                let m = choose|m: int| 0 <= m < prev.len() && prev[m] == y;
                                assert(r@[m] == y);
                            }
                        }
                    }
                }
            } else {
                proof {
                    assert forall|y: i64|
                        r@.contains(y) <==> is_recipient(self@.take(i as int + 1), y) by {
                        lemma_is_recipient_take_step(self@, i as int, y);
                        if y == x {
                            assert(r@.contains(x));
                        }
                    }
                }
            }
            i = i + 1;
        }
        proof {
            assert(self@.take(n as int) =~= self@);
        }
        r
    }

    /// Every subscription row, ordered by channel name, then by recipient:
    /// stable, reproducible output for administrative callers.
    pub fn list_subscriptions(&self) -> (r: Vec<Subscription>)
        ensures
            r@ == self@,
            self.wf() ==> subs_sorted(r@),
    {
        let mut r: Vec<Subscription> = Vec::new();
        let n = self.subs.len();
        let mut i: usize = 0;
        while i < n
            invariant
                n == self@.len(),
                0 <= i <= n,
                r@ == self@.take(i as int),
            decreases n - i,
        {
            let e = &self.subs[i];
            let copy = Subscription {
                recipient: e.recipient,
                channel: e.channel.clone(),
                created_at: e.created_at,
            };
            proof {
                assert(copy == self@[i as int]);
            }
            r.push(copy);
            proof {
                assert(r@ =~= self@.take(i as int + 1));
            }
            i = i + 1;
        }
        proof {
            assert(self@.take(n as int) =~= self@);
        }
        r
    }
}

proof fn lemma_is_recipient_take_step(s: Seq<Subscription>, i: int, y: i64)
    requires
        0 <= i < s.len(),
    ensures
        is_recipient(s.take(i + 1), y) <==> is_recipient(s.take(i), y) || s[i].recipient == y,
{
    if is_recipient(s.take(i + 1), y) {
        let w = choose|w: int|
            0 <= w < s.take(i + 1).len() && #[trigger] s.take(i + 1)[w].recipient == y;
        if w < i {
            assert(s.take(i)[w].recipient == y);
        }
    }
    if is_recipient(s.take(i), y) {
        let w = choose|w: int| 0 <= w < s.take(i).len() && #[trigger] s.take(i)[w].recipient == y;
        assert(s.take(i + 1)[w].recipient == y);
    }
    if s[i].recipient == y {
        assert(s.take(i + 1)[i].recipient == y);
    }
}

/// A (recipient, channel) pair is absent exactly when no row counts for it.
pub proof fn lemma_pair_count_absent(s: Seq<Subscription>, recipient: i64, channel: Seq<char>)
    ensures
        pair_count(s, recipient, channel) == 0 <==> !contains_pair(s, recipient, channel),
    decreases s.len(),
{
    if s.len() > 0 {
        lemma_pair_count_absent(s.drop_last(), recipient, channel);
        if contains_pair(s, recipient, channel) {
            let m = choose|m: int|
                0 <= m < s.len() && s[m].recipient == recipient && s[m].channel@ == channel;
            if m < s.len() - 1 {
                assert(s.drop_last()[m].recipient == recipient && s.drop_last()[m].channel@
                    == channel);
            }
        }
        if contains_pair(s.drop_last(), recipient, channel) {
            let m = choose|m: int|
                0 <= m < s.drop_last().len() && s.drop_last()[m].recipient == recipient
                    && s.drop_last()[m].channel@ == channel;
            assert(s[m].recipient == recipient && s[m].channel@ == channel);
        }
    }
}

/// In a sorted registry a (recipient, channel) pair occurs at most once; it
/// occurs exactly once when present at all. This is the uniqueness invariant:
/// a duplicate subscribe leaves one matching row, never two.
pub proof fn lemma_pair_count_at_most_one(s: Seq<Subscription>, recipient: i64, channel: Seq<char>)
    requires
        subs_sorted(s),
    ensures
        pair_count(s, recipient, channel) <= 1,
        contains_pair(s, recipient, channel) <==> pair_count(s, recipient, channel) == 1,
    decreases s.len(),
{
    lemma_pair_count_absent(s, recipient, channel);
    if s.len() > 0 {
        assert(subs_sorted(s.drop_last())) by {
            assert forall|i: int, j: int| 0 <= i < j < s.drop_last().len() implies sub_before(
                s.drop_last()[i],
                s.drop_last()[j],
            ) by {
                assert(sub_before(s[i], s[j]));
            }
        }
        lemma_pair_count_at_most_one(s.drop_last(), recipient, channel);
        if s.last().recipient == recipient && s.last().channel@ == channel {
            if contains_pair(s.drop_last(), recipient, channel) {
                let m = choose|m: int|
                    0 <= m < s.drop_last().len() && s.drop_last()[m].recipient == recipient
                        && s.drop_last()[m].channel@ == channel;
                assert(sub_before(s[m], s[s.len() - 1]));
                lemma_str_lt_irreflexive(channel);
            }
            lemma_pair_count_absent(s.drop_last(), recipient, channel);
            assert(s[s.len() - 1].recipient == recipient && s[s.len() - 1].channel@ == channel);
        } else {
            if contains_pair(s, recipient, channel) {
                let m = choose|m: int|
                    0 <= m < s.len() && s[m].recipient == recipient && s[m].channel@ == channel;
                assert(s.drop_last()[m].recipient == recipient && s.drop_last()[m].channel@
                    == channel);
            }
        }
    }
}

/// A recipient occurs in a channel's recipient list as often as the registry
/// holds rows pairing it with that channel.
pub proof fn lemma_recipients_in_count(s: Seq<Subscription>, recipient: i64, channel: Seq<char>)
    ensures
        occurrences(recipients_in(s, channel), recipient) == pair_count(s, recipient, channel),
    decreases s.len(),
{
    if s.len() > 0 {
        lemma_recipients_in_count(s.drop_last(), recipient, channel);
        let a = recipients_in(s.drop_last(), channel);
        if s.last().channel@ == channel {
            let whole = a + seq![s.last().recipient];
            assert(whole.drop_last() =~= a);
            assert(whole.last() == s.last().recipient);
        } else {
            assert(a + Seq::<i64>::empty() =~= a);
        }
    }
}

/// A recipient occurs in a list at all exactly when it occurs a positive
/// number of times.
pub proof fn lemma_occurrences_contains(s: Seq<i64>, x: i64)
    ensures
        occurrences(s, x) > 0 <==> s.contains(x),
    decreases s.len(),
{
    if s.len() > 0 {
        lemma_occurrences_contains(s.drop_last(), x);
        if s.contains(x) {
            let m = choose|m: int| 0 <= m < s.len() && s[m] == x;
            if m < s.len() - 1 {
                assert(s.drop_last()[m] == x);
            }
        }
        if s.drop_last().contains(x) {
            let m = choose|m: int| 0 <= m < s.drop_last().len() && s.drop_last()[m] == x;
            assert(s[m] == x);
        }
    }
}

/// A subscribed recipient is listed among its channel's recipients exactly
/// once: subscribing and then asking for the channel's recipients shows the
/// recipient one time, neither zero nor two.
pub proof fn lemma_subscribed_recipient_listed_once(
    s: Seq<Subscription>,
    recipient: i64,
    channel: Seq<char>,
)
    requires
        subs_sorted(s),
        contains_pair(s, recipient, channel),
    ensures
        recipients_in(s, channel).contains(recipient),
        occurrences(recipients_in(s, channel), recipient) == 1,
{
    lemma_pair_count_at_most_one(s, recipient, channel);
    lemma_recipients_in_count(s, recipient, channel);
    lemma_occurrences_contains(recipients_in(s, channel), recipient);
}

/// A channel nobody subscribes to has an empty recipient list, and an empty
/// recipient list means nobody subscribes to the channel — never an error.
pub proof fn lemma_recipients_in_empty_iff(s: Seq<Subscription>, channel: Seq<char>)
    ensures
        recipients_in(s, channel).len() == 0 <==> (forall|r: i64| !contains_pair(s, r, channel)),
    decreases s.len(),
{
    if s.len() > 0 {
        lemma_recipients_in_empty_iff(s.drop_last(), channel);
        if recipients_in(s, channel).len() == 0 {
            assert(recipients_in(s.drop_last(), channel).len() == 0);
            assert(s.last().channel@ != channel);
            assert forall|r: i64| !contains_pair(s, r, channel) by {
                if contains_pair(s, r, channel) {
                    let m = choose|m: int|
                        0 <= m < s.len() && s[m].recipient == r && s[m].channel@ == channel;
                    if m < s.len() - 1 {
                        assert(s.drop_last()[m].recipient == r && s.drop_last()[m].channel@
                            == channel);
                        assert(contains_pair(s.drop_last(), r, channel));
                    }
                }
            }
        }
        if forall|r: i64| !contains_pair(s, r, channel) {
            assert forall|r: i64| !contains_pair(s.drop_last(), r, channel) by {
                if contains_pair(s.drop_last(), r, channel) {
                    let m = choose|m: int|
                        0 <= m < s.drop_last().len() && s.drop_last()[m].recipient == r
                            && s.drop_last()[m].channel@ == channel;
                    assert(s[m].recipient == r && s[m].channel@ == channel);
                    assert(contains_pair(s, r, channel));
                }
            }
            assert(s.last().channel@ != channel) by {
                if s.last().channel@ == channel {
                    assert(s[s.len() - 1].recipient == s.last().recipient && s[s.len()
                        - 1].channel@ == channel);
                    assert(contains_pair(s, s.last().recipient, channel));
                }
            }
        }
    }
}

/// Whether `v` holds `x`.
fn vec_contains_i64(v: &Vec<i64>, x: i64) -> (r: bool)
    ensures
        r == v@.contains(x),
{
    let n = v.len();
    let mut i: usize = 0;
    while i < n
        invariant
            n == v@.len(),
            0 <= i <= n,
            forall|j: int| 0 <= j < i ==> v@[j] != x,
        decreases n - i,
    {
        if v[i] == x {
            return true;
        }
        i = i + 1;
    }
    false
}

} // verus!
