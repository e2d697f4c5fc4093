//! Subscription table for PUB-SUB: tracks active prefix filters from connected SUB peers.

use vstd::prelude::*;

use crate::entries::{Entries, Insertion};
use crate::null::Role;
use crate::registry::Registry;

verus! {

/// Errors returned by [`SubTable`] operations.
#[derive(Debug, PartialEq, Eq, Structural, Clone, Copy)]
pub enum SubError {
    /// The table already holds `MAX_ENTRIES` subscriptions.
    TableFull,
    /// The supplied prefix exceeds `MAX_PREFIX_LEN` bytes.
    PrefixTooLong,
}

/// Bounded per-peer subscription table with prefix filtering.
///
/// `MAX_ENTRIES` — maximum simultaneous subscriptions stored.
/// `MAX_PREFIX_LEN` — maximum byte length of a single prefix.
#[verifier::reject_recursive_types(MAX_PREFIX_LEN)]
pub struct SubTable<const MAX_ENTRIES: usize, const MAX_PREFIX_LEN: usize> {
    entries: Entries<MAX_ENTRIES, MAX_PREFIX_LEN>,
}

impl<const MAX_ENTRIES: usize, const MAX_PREFIX_LEN: usize> View for SubTable<
    MAX_ENTRIES,
    MAX_PREFIX_LEN,
> {
    type V = Set<Seq<u8>>;

    closed spec fn view(&self) -> Set<Seq<u8>> {
        self.entries@
    }
}

/// What [`SubTable::subscribe`] returns.
pub open spec fn subscribe_result(outcome: Insertion) -> Result<(), SubError> {
    match outcome {
        Insertion::Added => Ok(()),
        Insertion::Present => Ok(()),
        Insertion::TooLong => Err(SubError::PrefixTooLong),
        Insertion::Full => Err(SubError::TableFull),
    }
}

impl<const MAX_ENTRIES: usize, const MAX_PREFIX_LEN: usize> SubTable<MAX_ENTRIES, MAX_PREFIX_LEN> {
    /// No prefix is stored twice, and the limits are kept.
    pub closed spec fn wf(&self) -> bool {
        self.entries.wf()
    }

    /// The table never outgrows its limits.
    pub proof fn law_limits(&self)
        requires
            self.wf(),
        ensures
            self@.finite(),
            self@.len() <= MAX_ENTRIES,
            forall|p: Seq<u8>| #[trigger] self@.contains(p) ==> p.len() <= MAX_PREFIX_LEN,
    {
        self.entries.lemma_limits();
    }

    /// Create an empty subscription table.
    #[must_use]
    pub fn new() -> (r: Self)
        ensures
            r.wf(),
            r@ == Set::<Seq<u8>>::empty(),
    {
        SubTable { entries: Entries::new() }
    }

    /// Register a subscription prefix.
    ///
    /// Returns `Err` if the table is full or the prefix exceeds `MAX_PREFIX_LEN`.
    /// Silently succeeds (no duplicate added) if the prefix is already present.
    ///
    /// Two identical subscriptions count once, to conserve bounded table space on
    /// embedded targets: one `cancel` removes the prefix regardless of how many
    /// times it was subscribed.
    ///
    /// # Errors
    /// Returns `SubError::PrefixTooLong` if the prefix exceeds `MAX_PREFIX_LEN`.
    /// Returns `SubError::TableFull` if the table already holds `MAX_ENTRIES` subscriptions.
    pub fn subscribe(&mut self, prefix: &[u8]) -> (r: Result<(), SubError>)
        requires
            old(self).wf(),
        ensures
            final(self).wf(),
            r == subscribe_result(
                crate::entries::insertion(
                    old(self)@,
                    prefix@,
                    MAX_ENTRIES as nat,
                    MAX_PREFIX_LEN as nat,
                ),
            ),
            final(self)@ == crate::entries::inserted(
                old(self)@,
                prefix@,
                MAX_ENTRIES as nat,
                MAX_PREFIX_LEN as nat,
            ),
    {
        match self.entries.insert(prefix) {
            Insertion::Added => Ok(()),
            Insertion::Present => Ok(()),
            Insertion::TooLong => Err(SubError::PrefixTooLong),
            Insertion::Full => Err(SubError::TableFull),
        }
    }

    /// Remove a subscription prefix. No-op if the prefix is not present.
    pub fn cancel(&mut self, prefix: &[u8])
        requires
            old(self).wf(),
        ensures
            final(self).wf(),
            final(self)@ == old(self)@.remove(prefix@),
    {
        self.entries.remove(prefix);
    }

    /// Returns `true` if at least one stored prefix is a prefix of `topic`.
    ///
    /// An empty stored prefix matches every topic.
    #[must_use]
    pub fn matches(&self, topic: &[u8]) -> (r: bool)
        ensures
            r == crate::registry::selects(Role::Pub, self@, topic@),
    {
        self.entries.any_prefix_of(topic)
    }

    /// Number of active subscriptions.
    #[must_use]
    pub fn len(&self) -> (r: usize)
        requires
            self.wf(),
        ensures
            r == self@.len(),
    {
        self.entries.len()
    }

    /// `true` when no subscriptions are registered.
    #[must_use]
    pub fn is_empty(&self) -> (r: bool)
        requires
            self.wf(),
        ensures
            r == (self@ == Set::<Seq<u8>>::empty()),
    {
        proof {
            self.law_limits();
            if self@.len() == 0 {
                assert(self@ =~= Set::<Seq<u8>>::empty());
            }
        }
        self.entries.len() == 0
    }
}

impl<const MAX_ENTRIES: usize, const MAX_PREFIX_LEN: usize> Default for SubTable<
    MAX_ENTRIES,
    MAX_PREFIX_LEN,
> {
    fn default() -> (r: Self)
        ensures
            r.wf(),
            r@ == Set::<Seq<u8>>::empty(),
    {
        Self::new()
    }
}

impl<const MAX_ENTRIES: usize, const MAX_PREFIX_LEN: usize> Registry for SubTable<
    MAX_ENTRIES,
    MAX_PREFIX_LEN,
> {
    open spec fn role() -> Role {
        Role::Pub
    }

    open spec fn max_entries() -> nat {
        MAX_ENTRIES as nat
    }

    open spec fn max_len() -> nat {
        MAX_PREFIX_LEN as nat
    }

    open spec fn entries(&self) -> Set<Seq<u8>> {
        self@
    }

    open spec fn valid(&self) -> bool {
        self.wf()
    }

    fn socket_role() -> (r: Role) {
        Role::Pub
    }

    fn empty() -> (r: Self) {
        Self::new()
    }

    fn add(&mut self, key: &[u8]) {
        let _ = self.subscribe(key);
    }

    fn remove(&mut self, key: &[u8]) {
        self.cancel(key);
    }

    fn wants(&self, topic: &[u8]) -> (r: bool) {
        self.matches(topic)
    }
}

/// A prefix that was subscribed with success selects every topic that starts
/// with it; the empty prefix selects them all.
pub proof fn law_subscribed_topics_match(
    table: Set<Seq<u8>>,
    prefix: Seq<u8>,
    topic: Seq<u8>,
    max: nat,
    len: nat,
)
    requires
        subscribe_result(crate::entries::insertion(table, prefix, max, len)) is Ok,
        crate::bytes::is_prefix(prefix, topic) || prefix.len() == 0,
    ensures
        crate::registry::selects(
            Role::Pub,
            crate::entries::inserted(table, prefix, max, len),
            topic,
        ),
{
    if prefix.len() == 0 {
        assert(topic.take(0) =~= prefix);
    }
    assert(crate::entries::inserted(table, prefix, max, len).contains(prefix));
}

/// Subscribing only adds to what is selected, and cancelling only takes away.
pub proof fn law_selection_is_monotone(
    table: Set<Seq<u8>>,
    prefix: Seq<u8>,
    topic: Seq<u8>,
    max: nat,
    len: nat,
)
    ensures
        crate::registry::selects(Role::Pub, table, topic) ==> crate::registry::selects(
            Role::Pub,
            crate::entries::inserted(table, prefix, max, len),
            topic,
        ),
        crate::registry::selects(Role::Pub, table.remove(prefix), topic)
            ==> crate::registry::selects(Role::Pub, table, topic),
{
    if crate::registry::selects(Role::Pub, table, topic) {
        let p = choose|p: Seq<u8>|
            #[trigger] table.contains(p) && crate::bytes::is_prefix(p, topic);
        assert(crate::entries::inserted(table, prefix, max, len).contains(p));
    }
    if crate::registry::selects(Role::Pub, table.remove(prefix), topic) {
        let p = choose|p: Seq<u8>|
            #[trigger] table.remove(prefix).contains(p) && crate::bytes::is_prefix(p, topic);
        assert(table.contains(p));
    }
}

/// After a prefix was cancelled, a topic is selected only by another prefix.
pub proof fn law_cancelled_prefix_selects_nothing(
    table: Set<Seq<u8>>,
    prefix: Seq<u8>,
    topic: Seq<u8>,
)
    ensures
        crate::registry::selects(Role::Pub, table.remove(prefix), topic) <==> exists|p: Seq<u8>|
            p != prefix && #[trigger] table.contains(p) && crate::bytes::is_prefix(p, topic),
{
    if crate::registry::selects(Role::Pub, table.remove(prefix), topic) {
        let p = choose|p: Seq<u8>|
            #[trigger] table.remove(prefix).contains(p) && crate::bytes::is_prefix(p, topic);
        assert(table.contains(p) && p != prefix);
    }
    if exists|p: Seq<u8>|
        p != prefix && #[trigger] table.contains(p) && crate::bytes::is_prefix(p, topic) {
        let p = choose|p: Seq<u8>|
            p != prefix && #[trigger] table.contains(p) && crate::bytes::is_prefix(p, topic);
        assert(table.remove(prefix).contains(p));
    }
}

/// What a subscription comes to: it is refused as too long exactly where it is longer
/// than the limit, and for want of room exactly where it is new and the table is full;
/// otherwise the prefix is in the table.
pub proof fn law_when_a_subscription_is_refused(
    table: Set<Seq<u8>>,
    prefix: Seq<u8>,
    max: nat,
    len: nat,
)
    ensures
        ({
            let r = subscribe_result(crate::entries::insertion(table, prefix, max, len));
            let after = crate::entries::inserted(table, prefix, max, len);
            &&& r == Err::<(), SubError>(SubError::PrefixTooLong) <==> prefix.len() > len
            &&& r == Err::<(), SubError>(SubError::TableFull) <==> prefix.len() <= len
                && !table.contains(prefix) && table.len() >= max
            &&& r is Ok ==> after.contains(prefix)
            &&& r is Err ==> after == table
        }),
{
}

/// The table serves PUB sockets, and its limits are its parameters.
pub proof fn law_parameters_are_the_limits<const M: usize, const L: usize>()
    ensures
        <SubTable<M, L> as Registry>::role() == Role::Pub,
        <SubTable<M, L> as Registry>::max_entries() == M,
        <SubTable<M, L> as Registry>::max_len() == L,
        forall|t: SubTable<M, L>| #[trigger] t.entries() == t@,
{
}

} // verus!
