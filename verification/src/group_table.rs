//! Group registry for RADIO-DISH: tracks which groups a DISH peer has joined.

use vstd::prelude::*;

use crate::entries::{Entries, Insertion};
use crate::null::Role;
use crate::registry::Registry;

verus! {

/// Errors returned by [`GroupTable`] operations.
#[derive(Debug, PartialEq, Eq, Structural, Clone, Copy)]
pub enum GroupError {
    /// The table already holds `MAX_ENTRIES` groups.
    TableFull,
    /// The supplied group name exceeds `MAX_GROUP_LEN` bytes.
    GroupTooLong,
}

/// Bounded per-peer group membership table with exact matching.
///
/// `MAX_ENTRIES` — maximum simultaneous groups stored.
/// `MAX_GROUP_LEN` — maximum byte length of a single group name.
#[verifier::reject_recursive_types(MAX_GROUP_LEN)]
pub struct GroupTable<const MAX_ENTRIES: usize, const MAX_GROUP_LEN: usize> {
    entries: Entries<MAX_ENTRIES, MAX_GROUP_LEN>,
}

impl<const MAX_ENTRIES: usize, const MAX_GROUP_LEN: usize> View for GroupTable<
    MAX_ENTRIES,
    MAX_GROUP_LEN,
> {
    type V = Set<Seq<u8>>;

    closed spec fn view(&self) -> Set<Seq<u8>> {
        self.entries@
    }
}

/// What [`GroupTable::join`] returns.
pub open spec fn join_result(outcome: Insertion) -> Result<(), GroupError> {
    match outcome {
        Insertion::Added => Ok(()),
        Insertion::Present => Ok(()),
        Insertion::TooLong => Err(GroupError::GroupTooLong),
        Insertion::Full => Err(GroupError::TableFull),
    }
}

impl<const MAX_ENTRIES: usize, const MAX_GROUP_LEN: usize> GroupTable<MAX_ENTRIES, MAX_GROUP_LEN> {
    /// No group is stored twice, and the limits are kept.
    pub closed spec fn wf(&self) -> bool {
        self.entries.wf()
    }

    /// The table never outgrows its limits.
    pub proof fn law_limits(&self)
        requires
            self.wf(),
        ensures
            self@.finite(),
            self@.len() <= MAX_ENTRIES,
            forall|g: Seq<u8>| #[trigger] self@.contains(g) ==> g.len() <= MAX_GROUP_LEN,
    {
        self.entries.lemma_limits();
    }

    /// Create an empty group table.
    #[must_use]
    pub fn new() -> (r: Self)
        ensures
            r.wf(),
            r@ == Set::<Seq<u8>>::empty(),
    {
        GroupTable { entries: Entries::new() }
    }

    /// Register a group membership (JOIN).
    ///
    /// Returns `Err` if the table is full or the group exceeds `MAX_GROUP_LEN`.
    /// Silently succeeds (no duplicate added) if the group is already present.
    ///
    /// # Errors
    /// Returns `GroupError::GroupTooLong` if the group exceeds `MAX_GROUP_LEN`.
    /// Returns `GroupError::TableFull` if the table already holds `MAX_ENTRIES` groups.
    pub fn join(&mut self, group: &[u8]) -> (r: Result<(), GroupError>)
        requires
            old(self).wf(),
        ensures
            final(self).wf(),
            r == join_result(
                crate::entries::insertion(
                    old(self)@,
                    group@,
                    MAX_ENTRIES as nat,
                    MAX_GROUP_LEN as nat,
                ),
            ),
            final(self)@ == crate::entries::inserted(
                old(self)@,
                group@,
                MAX_ENTRIES as nat,
                MAX_GROUP_LEN as nat,
            ),
    {
        match self.entries.insert(group) {
            Insertion::Added => Ok(()),
            Insertion::Present => Ok(()),
            Insertion::TooLong => Err(GroupError::GroupTooLong),
            Insertion::Full => Err(GroupError::TableFull),
        }
    }

    /// Remove a group membership (LEAVE). No-op if the group is not present.
    pub fn leave(&mut self, group: &[u8])
        requires
            old(self).wf(),
        ensures
            final(self).wf(),
            final(self)@ == old(self)@.remove(group@),
    {
        self.entries.remove(group);
    }

    /// Returns `true` if `group` exactly matches a stored entry.
    #[must_use]
    pub fn matches(&self, group: &[u8]) -> (r: bool)
        ensures
            r == self@.contains(group@),
    {
        self.entries.contains(group)
    }

    /// Number of active group memberships.
    #[must_use]
    pub fn len(&self) -> (r: usize)
        requires
            self.wf(),
        ensures
            r == self@.len(),
    {
        self.entries.len()
    }

    /// `true` when no groups are registered.
    #[must_use]
    pub fn is_empty(&self) -> (r: bool)
        requires
            self.wf(),
        ensures
            r == (self@ == Set::<Seq<u8>>::empty()),
    {
        proof {
            self.law_limits();
            if self@.len() == 0 {
                assert(self@ =~= Set::<Seq<u8>>::empty());
            }
        }
        self.entries.len() == 0
    }
}

impl<const MAX_ENTRIES: usize, const MAX_GROUP_LEN: usize> Default for GroupTable<
    MAX_ENTRIES,
    MAX_GROUP_LEN,
> {
    fn default() -> (r: Self)
        ensures
            r.wf(),
            r@ == Set::<Seq<u8>>::empty(),
    {
        Self::new()
    }
}

impl<const MAX_ENTRIES: usize, const MAX_GROUP_LEN: usize> Registry for GroupTable<
    MAX_ENTRIES,
    MAX_GROUP_LEN,
> {
    open spec fn role() -> Role {
        Role::Radio
    }

    open spec fn max_entries() -> nat {
        MAX_ENTRIES as nat
    }

    open spec fn max_len() -> nat {
        MAX_GROUP_LEN as nat
    }

    open spec fn entries(&self) -> Set<Seq<u8>> {
        self@
    }

    open spec fn valid(&self) -> bool {
        self.wf()
    }

    fn socket_role() -> (r: Role) {
        Role::Radio
    }

    fn empty() -> (r: Self) {
        Self::new()
    }

    fn add(&mut self, key: &[u8]) {
        let _ = self.join(key);
    }

    fn remove(&mut self, key: &[u8]) {
        self.leave(key);
    }

    fn wants(&self, topic: &[u8]) -> (r: bool) {
        self.matches(topic)
    }
}

/// A group that was joined with success is selected, and no other group is
/// selected because of it.
pub proof fn law_joined_group_matches(
    table: Set<Seq<u8>>,
    group: Seq<u8>,
    other: Seq<u8>,
    max: nat,
    len: nat,
)
    requires
        join_result(crate::entries::insertion(table, group, max, len)) is Ok,
    ensures
        crate::registry::selects(
            Role::Radio,
            crate::entries::inserted(table, group, max, len),
            group,
        ),
        other != group ==> crate::registry::selects(
            Role::Radio,
            crate::entries::inserted(table, group, max, len),
            other,
        ) == crate::registry::selects(Role::Radio, table, other),
{
}

/// A group that was left is not selected any more; every other group is as before.
pub proof fn law_left_group_is_out(table: Set<Seq<u8>>, group: Seq<u8>, other: Seq<u8>)
    ensures
        !crate::registry::selects(Role::Radio, table.remove(group), group),
        other != group ==> crate::registry::selects(Role::Radio, table.remove(group), other)
            == crate::registry::selects(Role::Radio, table, other),
{
}

/// What a JOIN comes to: it is refused as too long exactly where it is longer
/// than the limit, and for want of room exactly where it is new and the table is full;
/// otherwise the group is in the table.
pub proof fn law_when_a_membership_is_refused(
    table: Set<Seq<u8>>,
    group: Seq<u8>,
    max: nat,
    len: nat,
)
    ensures
        ({
            let r = join_result(crate::entries::insertion(table, group, max, len));
            let after = crate::entries::inserted(table, group, max, len);
            &&& r == Err::<(), GroupError>(GroupError::GroupTooLong) <==> group.len() > len
            &&& r == Err::<(), GroupError>(GroupError::TableFull) <==> group.len() <= len
                && !table.contains(group) && table.len() >= max
            &&& r is Ok ==> after.contains(group)
            &&& r is Err ==> after == table
        }),
{
}

/// The table serves RADIO sockets, and its limits are its parameters.
pub proof fn law_parameters_are_the_limits<const M: usize, const L: usize>()
    ensures
        <GroupTable<M, L> as Registry>::role() == Role::Radio,
        <GroupTable<M, L> as Registry>::max_entries() == M,
        <GroupTable<M, L> as Registry>::max_len() == L,
        forall|t: GroupTable<M, L>| #[trigger] t.entries() == t@,
{
}

} // verus!
