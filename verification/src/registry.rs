//! What a connection needs of the table in which it keeps its peer's interests.

use vstd::prelude::*;

use crate::null::Role;

verus! {

/// Whether a peer whose table holds `entries` gets what is published under
/// `topic`: a SUB peer by prefix, a DISH peer by the exact name of a group.
pub open spec fn selects(role: Role, entries: Set<Seq<u8>>, topic: Seq<u8>) -> bool {
    match role {
        Role::Pub => exists|p: Seq<u8>|
            #[trigger] entries.contains(p) && crate::bytes::is_prefix(p, topic),
        Role::Radio => entries.contains(topic),
    }
}

/// A bounded table of the prefixes or groups that a peer has asked for.
pub trait Registry: Sized {
    /// The kind of socket that the table serves.
    spec fn role() -> Role;

    /// How many entries the table can hold.
    spec fn max_entries() -> nat;

    /// How many bytes an entry can have.
    spec fn max_len() -> nat;

    /// The entries.
    spec fn entries(&self) -> Set<Seq<u8>>;

    /// The table is well formed.
    spec fn valid(&self) -> bool;

    /// The kind of socket that the table serves.
    fn socket_role() -> (r: Role)
        ensures
            r == Self::role(),
    ;

    /// An empty table.
    fn empty() -> (r: Self)
        ensures
            r.valid(),
            r.entries() == Set::<Seq<u8>>::empty(),
    ;

    /// Adds an entry as far as the limits allow.
    fn add(&mut self, key: &[u8])
        requires
            old(self).valid(),
        ensures
            final(self).valid(),
            final(self).entries() == crate::entries::inserted(
                old(self).entries(),
                key@,
                Self::max_entries(),
                Self::max_len(),
            ),
    ;

    /// Removes an entry, where it is there.
    fn remove(&mut self, key: &[u8])
        requires
            old(self).valid(),
        ensures
            final(self).valid(),
            final(self).entries() == old(self).entries().remove(key@),
    ;

    /// Tests whether the peer gets what is published under `topic`.
    fn wants(&self, topic: &[u8]) -> (r: bool)
        requires
            self.valid(),
        ensures
            r == selects(Self::role(), self.entries(), topic@),
    ;
}

/// A SUB peer gets a topic where one of its prefixes, with some bytes after it, is the
/// topic; a DISH peer gets exactly the groups that it has joined.
pub proof fn law_selection_by_bytes(entries: Set<Seq<u8>>, topic: Seq<u8>)
    ensures
        selects(Role::Pub, entries, topic) <==> exists|p: Seq<u8>, rest: Seq<u8>|
            entries.contains(p) && topic == #[trigger] (p + rest),
        selects(Role::Radio, entries, topic) <==> entries.contains(topic),
{
    if selects(Role::Pub, entries, topic) {
        let p = choose|p: Seq<u8>|
            #[trigger] entries.contains(p) && crate::bytes::is_prefix(p, topic);
        crate::bytes::law_prefix_is_byte_by_byte(p, topic);
        let rest = choose|rest: Seq<u8>| topic == #[trigger] (p + rest);
        assert(topic == p + rest);
    }
    if exists|p: Seq<u8>, rest: Seq<u8>| entries.contains(p) && topic == #[trigger] (p + rest) {
        let (p, rest) = choose|p: Seq<u8>, rest: Seq<u8>|
            entries.contains(p) && topic == #[trigger] (p + rest);
        crate::bytes::law_prefix_is_byte_by_byte(p, topic);
    }
}

/// A prefix that differs from a topic in one byte does not select it, nor does one
/// that is longer; neither does a group that is not the topic.
pub proof fn law_one_byte_is_enough(prefix: Seq<u8>, topic: Seq<u8>, i: int)
    requires
        prefix.len() > topic.len() || 0 <= i < prefix.len() && prefix[i] != topic[i],
    ensures
        !selects(Role::Pub, Set::empty().insert(prefix), topic),
        !selects(Role::Radio, Set::empty().insert(prefix), topic),
{
    crate::bytes::law_prefix_is_byte_by_byte(prefix, topic);
    if prefix == topic {
        assert(prefix[i] == topic[i]);
    }
}

} // verus!
