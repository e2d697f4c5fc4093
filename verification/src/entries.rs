//! A bounded set of byte strings on top of `heapless::Vec`.

use vstd::prelude::*;
use vstd::std_specs::cmp::PartialEqSpec;

use crate::bytes::{same, starts_with};

verus! {

/// `heapless::Vec`, a vector of at most `N` items that are stored in place.
#[verifier::external_type_specification]
#[verifier::external_body]
#[verifier::reject_recursive_types(T)]
pub struct ExHeaplessVec<T, const N: usize>(heapless::Vec<T, N>);

/// `v` compares equal to exactly the slices that hold `s`: a `heapless::Vec` is
/// compared with a slice item by item.
pub open spec fn holds<T: PartialEq, const N: usize>(v: heapless::Vec<T, N>, s: Seq<T>) -> bool {
    forall|x: &[T]| #[trigger] v.eq_spec(&x) <==> x@ == s
}

/// The items of `v`, in order: what the slices hold that `v` compares equal to.
/// Vectors that hold the same items are the same value.
pub open spec fn items<T: PartialEq, const N: usize>(v: heapless::Vec<T, N>) -> Seq<T> {
    choose|s: Seq<T>| holds(v, s)
}

/// `heapless::Vec::new`: the vector holds nothing.
#[verifier::external_body]
fn new_vec<T: PartialEq, const N: usize>() -> (v: heapless::Vec<T, N>)
    ensures
        items(v) == Seq::<T>::empty(),
{
    heapless::Vec::new()
}

/// `heapless::Vec::as_slice`: the slice holds the items of the vector.
#[verifier::external_body]
fn vec_slice<T: PartialEq, const N: usize>(v: &heapless::Vec<T, N>) -> (r: &[T])
    ensures
        r@ == items(*v),
{
    v.as_slice()
}

/// `heapless::Vec::push`: adds the item at the end where there are fewer than `N`
/// items, and otherwise hands it back and leaves the vector as it was.
#[verifier::external_body]
fn vec_push<T: PartialEq, const N: usize>(v: &mut heapless::Vec<T, N>, item: T) -> (r: Result<
    (),
    T,
>)
    ensures
        r is Ok <==> items(*old(v)).len() < N,
        r is Ok ==> items(*final(v)) == items(*old(v)).push(item),
        r is Err ==> r->Err_0 == item && *final(v) == *old(v),
{
    v.push(item)
}

/// `heapless::Vec::extend_from_slice`, on bytes: adds all of them at the end where
/// they fit, and otherwise leaves the vector as it was.
#[verifier::external_body]
fn vec_extend<const N: usize>(v: &mut heapless::Vec<u8, N>, other: &[u8]) -> (r: Result<(), ()>)
    ensures
        r is Ok <==> items(*old(v)).len() + other@.len() <= N,
        r is Ok ==> items(*final(v)) == items(*old(v)) + other@,
        r is Err ==> *final(v) == *old(v),
{
    v.extend_from_slice(other)
}

/// `heapless::Vec::swap_remove`: takes out the item at `index`, which is in range,
/// and puts the last item in its place.
#[verifier::external_body]
fn vec_swap_remove<T: PartialEq, const N: usize>(v: &mut heapless::Vec<T, N>, index: usize) -> (r:
    T)
    requires
        index < items(*old(v)).len(),
    ensures
        r == items(*old(v))[index as int],
        items(*final(v)) == items(*old(v)).update(index as int, items(*old(v)).last()).drop_last(),
{
    v.swap_remove(index)
}

/// What became of a string that was to be added.
#[derive(Debug, Clone, Copy, PartialEq, Eq, Structural)]
pub enum Insertion {
    /// It is now in the set, and was not before.
    Added,
    /// It was in the set already.
    Present,
    /// It has more bytes than an entry can hold.
    TooLong,
    /// It is new, and the set is full.
    Full,
}

/// What becomes of `key` in a set of at most `max` strings of at most `len` bytes.
pub open spec fn insertion(set: Set<Seq<u8>>, key: Seq<u8>, max: nat, len: nat) -> Insertion {
    if key.len() > len {
        Insertion::TooLong
    } else if set.contains(key) {
        Insertion::Present
    } else if set.len() >= max {
        Insertion::Full
    } else {
        Insertion::Added
    }
}

/// The set after `key` was to be added.
pub open spec fn inserted(set: Set<Seq<u8>>, key: Seq<u8>, max: nat, len: nat) -> Set<Seq<u8>> {
    if insertion(set, key, max, len) == Insertion::Added {
        set.insert(key)
    } else {
        set
    }
}

/// A set of at most `MAX` byte strings of at most `LEN` bytes each.
#[verifier::reject_recursive_types(LEN)]
pub struct Entries<const MAX: usize, const LEN: usize> {
    rows: heapless::Vec<heapless::Vec<u8, LEN>, MAX>,
}

impl<const MAX: usize, const LEN: usize> View for Entries<MAX, LEN> {
    type V = Set<Seq<u8>>;

    closed spec fn view(&self) -> Set<Seq<u8>> {
        self.strings().to_set()
    }
}

impl<const MAX: usize, const LEN: usize> Entries<MAX, LEN> {
    /// The strings in the order in which they are stored.
    spec fn strings(&self) -> Seq<Seq<u8>> {
        items(self.rows).map_values(|row: heapless::Vec<u8, LEN>| items(row))
    }

    /// Nothing is stored twice, and the limits are kept.
    pub closed spec fn wf(&self) -> bool {
        &&& self.strings().no_duplicates()
        &&& self.strings().len() <= MAX
        &&& forall|i: int|
            0 <= i < self.strings().len() ==> #[trigger] self.strings()[i].len() <= LEN
    }

    /// The limits, as they show in the set.
    pub proof fn lemma_limits(&self)
        requires
            self.wf(),
        ensures
            self@.len() <= MAX,
            self@.finite(),
            forall|s: Seq<u8>| #[trigger] self@.contains(s) ==> s.len() <= LEN,
    {
        self.strings().unique_seq_to_set();
    }

    /// An empty set.
    pub fn new() -> (r: Self)
        ensures
            r.wf(),
            r@ == Set::<Seq<u8>>::empty(),
    {
        let r = Entries { rows: new_vec() };
        assert(r.strings() =~= Seq::<Seq<u8>>::empty());
        assert(r@ =~= Set::<Seq<u8>>::empty());
        r
    }

    /// The position of `key`, where it is in the set.
    fn position(&self, key: &[u8]) -> (r: Option<usize>)
        ensures
            match r {
                Some(i) => i < self.strings().len() && self.strings()[i as int] == key@,
                None => !self@.contains(key@),
            },
    {
        let rows: &[heapless::Vec<u8, LEN>] = vec_slice(&self.rows);
        let n: usize = rows.len();
        let mut i: usize = 0;
        while i < n
            invariant
                n == rows@.len(),
                i <= n,
                rows@ == items(self.rows),
                forall|j: int| 0 <= j < i ==> #[trigger] self.strings()[j] != key@,
            decreases n - i,
        {
            let row: &[u8] = vec_slice(&rows[i]);
            assert(row@ == self.strings()[i as int]);
            if same(row, key) {
                return Some(i);
            }
            i = i + 1;
        }
        None
    }

    /// Tests whether `key` is in the set.
    pub fn contains(&self, key: &[u8]) -> (r: bool)
        ensures
            r == self@.contains(key@),
    {
        match self.position(key) {
            Some(i) => {
                assert(self.strings().contains(self.strings()[i as int]));
                true
            },
            None => false,
        }
    }

    /// Tests whether some string in the set is a prefix of `topic`.
    pub fn any_prefix_of(&self, topic: &[u8]) -> (r: bool)
        ensures
            r == exists|p: Seq<u8>|
                #[trigger] self@.contains(p) && crate::bytes::is_prefix(p, topic@),
    {
        let rows: &[heapless::Vec<u8, LEN>] = vec_slice(&self.rows);
        let n: usize = rows.len();
        let mut i: usize = 0;
        while i < n
            invariant
                n == rows@.len(),
                i <= n,
                rows@ == items(self.rows),
                forall|j: int|
                    0 <= j < i ==> !crate::bytes::is_prefix(#[trigger] self.strings()[j], topic@),
            decreases n - i,
        {
            let row: &[u8] = vec_slice(&rows[i]);
            assert(row@ == self.strings()[i as int]);
            if starts_with(topic, row) {
                assert(self@.contains(self.strings()[i as int]));
                return true;
            }
            i = i + 1;
        }
        false
    }

    /// The number of strings in the set.
    pub fn len(&self) -> (r: usize)
        requires
            self.wf(),
        ensures
            r == self@.len(),
    {
        proof {
            self.strings().unique_seq_to_set();
        }
        vec_slice(&self.rows).len()
    }

    /// Adds `key` where it is new, fits, and there is room.
    pub fn insert(&mut self, key: &[u8]) -> (r: Insertion)
        requires
            old(self).wf(),
        ensures
            final(self).wf(),
            r == insertion(old(self)@, key@, MAX as nat, LEN as nat),
            final(self)@ == inserted(old(self)@, key@, MAX as nat, LEN as nat),
    {
        if key.len() > LEN {
            return Insertion::TooLong;
        }
        if self.contains(key) {
            return Insertion::Present;
        }
        let ghost before = self.strings();
        proof {
            before.unique_seq_to_set();
        }
        let mut row: heapless::Vec<u8, LEN> = new_vec();
        let _ = vec_extend(&mut row, key);
        assert(items(row) =~= key@);
        match vec_push(&mut self.rows, row) {
            Ok(_) => {
                proof {
                    assert(self.strings() =~= before.push(key@));
                    assert(!before.contains(key@));
                    assert(self@ =~= before.to_set().insert(key@)) by {
                        assert(self.strings()[before.len() as int] == key@);
                        assert forall|s: Seq<u8>| before.contains(s) implies self.strings().contains(
                            s,
                        ) by {
                            let i = choose|i: int| 0 <= i < before.len() && before[i] == s;
                            assert(self.strings()[i] == s);
                        }
                    }
                }
                Insertion::Added
            },
            Err(_) => Insertion::Full,
        }
    }

    /// Takes `key` out of the set, where it is in it.
    pub fn remove(&mut self, key: &[u8])
        requires
            old(self).wf(),
        ensures
            final(self).wf(),
            final(self)@ == old(self)@.remove(key@),
    {
        match self.position(key) {
            Some(i) => {
                let ghost before = self.strings();
                let _ = vec_swap_remove(&mut self.rows, i);
                proof {
                    let after = self.strings();
                    let i = i as int;
                    let last = before.len() - 1;
                    assert(after =~= before.update(i, before.last()).drop_last());
                    assert forall|s: Seq<u8>| after.contains(s) implies before.contains(s) && s
                        != key@ by {
                        let k = choose|k: int| 0 <= k < after.len() && after[k] == s;
                        if k == i {
                            assert(before[last] == s);
                        } else {
                            assert(before[k] == s);
                        }
                    }
                    assert forall|s: Seq<u8>| before.contains(s) && s != key@ implies after.contains(
                        s,
                    ) by {
                        let k = choose|k: int| 0 <= k < before.len() && before[k] == s;
                        if k == last {
                            assert(after[i] == s);
                        } else {
                            assert(after[k] == s);
                        }
                    }
                    assert(self@ =~= before.to_set().remove(key@));
                }
            },
            None => {
                assert(self@.remove(key@) =~= self@);
            },
        }
    }
}

/// Adding a string twice comes to the same as adding it once.
pub proof fn law_insertion_is_idempotent(set: Set<Seq<u8>>, key: Seq<u8>, max: nat, len: nat)
    ensures
        inserted(inserted(set, key, max, len), key, max, len) == inserted(set, key, max, len),
{
}

/// However often a string was added, one removal takes it out, and leaves the
/// others as they were.
pub proof fn law_one_removal_is_enough(set: Set<Seq<u8>>, key: Seq<u8>, max: nat, len: nat)
    ensures
        inserted(set, key, max, len).remove(key) == set.remove(key),
        !inserted(set, key, max, len).remove(key).contains(key),
{
    assert(inserted(set, key, max, len).remove(key) =~= set.remove(key));
}

/// Removing a string from a full set makes room for another one.
pub proof fn law_removal_makes_room(
    set: Set<Seq<u8>>,
    old_key: Seq<u8>,
    new_key: Seq<u8>,
    max: nat,
    len: nat,
)
    requires
        set.finite(),
        set.len() <= max,
        set.contains(old_key),
        !set.contains(new_key),
        new_key.len() <= len,
    ensures
        insertion(set.remove(old_key), new_key, max, len) == Insertion::Added,
{
}

/// What is in the set after a string was to be added: what was in it, and the string,
/// where it is not too long and there is room.
pub proof fn law_insertion_adds_one(
    set: Set<Seq<u8>>,
    key: Seq<u8>,
    max: nat,
    len: nat,
    other: Seq<u8>,
)
    ensures
        inserted(set, key, max, len).contains(other) <==> set.contains(other) || (other == key
            && key.len() <= len && set.len() < max),
{
}

} // verus!
