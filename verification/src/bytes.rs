//! Byte-string helpers: copying, comparing and big-endian numbers.

use vstd::prelude::*;

verus! {

/// `out` with its first `head.len()` bytes replaced by `head`.
pub open spec fn overwrite(out: Seq<u8>, head: Seq<u8>) -> Seq<u8> {
    head + out.skip(head.len() as int)
}

/// The value of a byte string read as one big-endian number.
pub open spec fn be_value(s: Seq<u8>) -> nat
    decreases s.len(),
{
    if s.len() == 0 {
        0
    } else {
        be_value(s.drop_last()) * 256 + s.last() as nat
    }
}

/// The last `width` bytes of `n` written as a big-endian number.
pub open spec fn be_bytes(n: nat, width: nat) -> Seq<u8>
    decreases width,
{
    if width == 0 {
        Seq::empty()
    } else {
        be_bytes(n / 256, (width - 1) as nat).push((n % 256) as u8)
    }
}

/// `a` is a prefix of `b`.
pub open spec fn is_prefix(a: Seq<u8>, b: Seq<u8>) -> bool {
    a.len() <= b.len() && b.take(a.len() as int) == a
}

/// `b` in lower case, where it is an ASCII capital letter.
pub open spec fn ascii_lower(b: u8) -> u8 {
    if 0x41 <= b <= 0x5A {
        (b + 0x20) as u8
    } else {
        b
    }
}

/// `a` and `b` differ at most in the case of ASCII letters.
pub open spec fn same_ignoring_case(a: Seq<u8>, b: Seq<u8>) -> bool {
    a.len() == b.len() && forall|i: int|
        0 <= i < a.len() ==> ascii_lower(#[trigger] a[i]) == ascii_lower(b[i])
}

/// The largest value that `width` big-endian bytes can hold, plus one.
pub open spec fn be_limit(width: nat) -> nat
    decreases width,
{
    if width == 0 {
        1
    } else {
        256 * be_limit((width - 1) as nat)
    }
}

/// Eight bytes hold every `u64`, four every `u32`.
pub proof fn lemma_be_limits()
    ensures
        be_limit(1) == 0x100,
        be_limit(4) == 0x1_0000_0000,
        be_limit(8) == 0x1_0000_0000_0000_0000,
{
    reveal_with_fuel(be_limit, 9);
}

/// A byte string of `n` bytes is below the limit of that width.
pub proof fn lemma_be_value_bound(s: Seq<u8>)
    ensures
        be_value(s) < be_limit(s.len()),
    decreases s.len(),
{
    if s.len() > 0 {
        lemma_be_value_bound(s.drop_last());
    }
}

/// `be_bytes` has the width that was asked for.
pub proof fn lemma_be_bytes_len(n: nat, width: nat)
    ensures
        be_bytes(n, width).len() == width,
    decreases width,
{
    if width > 0 {
        lemma_be_bytes_len(n / 256, (width - 1) as nat);
    }
}

/// Reading back what was written gives the number, as far as it fits the width.
pub proof fn law_be_round_trip(n: nat, width: nat)
    requires
        n < be_limit(width),
    ensures
        be_bytes(n, width).len() == width,
        be_value(be_bytes(n, width)) == n,
    decreases width,
{
    if width > 0 {
        law_be_round_trip(n / 256, (width - 1) as nat);
        let rest = be_bytes(n / 256, (width - 1) as nat);
        assert(be_bytes(n, width).drop_last() =~= rest);
    }
}

/// Copies `src` over the bytes of `dst` from `at` on.
pub fn copy_into(dst: &mut [u8], at: usize, src: &[u8])
    requires
        at + src@.len() <= old(dst)@.len(),
    ensures
        final(dst)@ == old(dst)@.take(at as int) + src@ + old(dst)@.skip(at + src@.len()),
{
    let n: usize = src.len();
    let total: usize = dst.len();
    let mut i: usize = 0;
    while i < n
        invariant
            n == src@.len(),
            at + n <= total == old(dst)@.len(),
            i <= n,
            dst@ =~= old(dst)@.take(at as int) + src@.take(i as int) + old(dst)@.skip(at + i),
        decreases n - i,
    {
        dst[at + i] = src[i];
        i = i + 1;
    }
    assert(src@.take(n as int) =~= src@);
}

/// Copies `head` over the first bytes of `out`.
pub fn put(out: &mut [u8], head: &[u8])
    requires
        head@.len() <= old(out)@.len(),
    ensures
        final(out)@ == overwrite(old(out)@, head@),
{
    copy_into(out, 0, head);
    assert(out@ =~= overwrite(old(out)@, head@));
}

/// Writing on after a first part comes to the same as writing both parts.
proof fn lemma_overwrite_on(out: Seq<u8>, head: Seq<u8>, next: Seq<u8>)
    requires
        head.len() + next.len() <= out.len(),
    ensures
        ({
            let now = overwrite(out, head);
            now.take(head.len() as int) + next + now.skip((head.len() + next.len()) as int)
                == overwrite(out, head + next)
        }),
{
    let now = overwrite(out, head);
    assert(now.take(head.len() as int) + next + now.skip((head.len() + next.len()) as int)
        =~= overwrite(out, head + next));
}

/// Copies two headers, each with the body that it announces, over the first
/// bytes of `out`.
pub fn put_frames(out: &mut [u8], h1: &[u8], b1: &[u8], h2: &[u8], b2: &[u8])
    requires
        h1@.len() + b1@.len() + h2@.len() + b2@.len() <= old(out)@.len(),
    ensures
        final(out)@ == overwrite(old(out)@, (h1@ + b1@) + (h2@ + b2@)),
{
    let total: usize = out.len();
    put(out, h1);
    proof {
        lemma_overwrite_on(old(out)@, h1@, b1@);
        lemma_overwrite_on(old(out)@, h1@ + b1@, h2@);
        lemma_overwrite_on(old(out)@, h1@ + b1@ + h2@, b2@);
    }
    copy_into(out, h1.len(), b1);
    copy_into(out, h1.len() + b1.len(), h2);
    copy_into(out, h1.len() + b1.len() + h2.len(), b2);
    assert(h1@ + b1@ + h2@ + b2@ =~= (h1@ + b1@) + (h2@ + b2@));
}

/// Moves the `n` bytes from `from` on to the start of `buf`.
pub fn move_down(buf: &mut [u8], from: usize, n: usize)
    requires
        from + n <= old(buf)@.len(),
    ensures
        final(buf)@ == overwrite(old(buf)@, old(buf)@.subrange(from as int, from + n)),
{
    let total: usize = buf.len();
    let mut i: usize = 0;
    assert(buf@ =~= overwrite(old(buf)@, old(buf)@.subrange(from as int, from as int)));
    while i < n
        invariant
            from + n <= total == old(buf)@.len(),
            i <= n,
            buf@.len() == total,
            forall|j: int| 0 <= j < i ==> buf@[j] == old(buf)@[from + j],
            forall|j: int| i <= j < total ==> buf@[j] == old(buf)@[j],
        decreases n - i,
    {
        buf[i] = buf[from + i];
        i = i + 1;
    }
    assert(buf@ =~= overwrite(old(buf)@, old(buf)@.subrange(from as int, from + n)));
}

/// Tests whether two byte strings are the same.
pub fn same(a: &[u8], b: &[u8]) -> (r: bool)
    ensures
        r == (a@ == b@),
{
    if a.len() != b.len() {
        return false;
    }
    let n: usize = a.len();
    let mut i: usize = 0;
    while i < n
        invariant
            n == a@.len() == b@.len(),
            i <= n,
            forall|j: int| 0 <= j < i ==> a@[j] == b@[j],
        decreases n - i,
    {
        if a[i] != b[i] {
            return false;
        }
        i = i + 1;
    }
    assert(a@ =~= b@);
    true
}

/// Tests whether `b` starts with `a`.
pub fn starts_with(b: &[u8], a: &[u8]) -> (r: bool)
    ensures
        r == is_prefix(a@, b@),
{
    if a.len() > b.len() {
        return false;
    }
    same(vstd::slice::slice_subrange(b, 0, a.len()), a)
}

fn to_lower(b: u8) -> (r: u8)
    ensures
        r == ascii_lower(b),
{
    if 0x41 <= b && b <= 0x5A {
        b + 0x20
    } else {
        b
    }
}

/// Tests whether two byte strings differ at most in the case of ASCII letters.
pub fn equal_ignoring_case(a: &[u8], b: &[u8]) -> (r: bool)
    ensures
        r == same_ignoring_case(a@, b@),
{
    if a.len() != b.len() {
        return false;
    }
    let n: usize = a.len();
    let mut i: usize = 0;
    while i < n
        invariant
            n == a@.len() == b@.len(),
            i <= n,
            forall|j: int| 0 <= j < i ==> ascii_lower(#[trigger] a@[j]) == ascii_lower(b@[j]),
        decreases n - i,
    {
        if to_lower(a[i]) != to_lower(b[i]) {
            assert(ascii_lower(a@[i as int]) != ascii_lower(b@[i as int]));
            return false;
        }
        i = i + 1;
    }
    true
}

/// Writes `value` into eight bytes, most significant first.
pub fn write_be64(value: u64) -> (r: [u8; 8])
    ensures
        r@ == be_bytes(value as nat, 8),
{
    let mut out: [u8; 8] = [0u8; 8];
    let mut left: u64 = value;
    let mut i: usize = 8;
    proof {
        lemma_be_bytes_len(value as nat, 8);
        assert(out@.skip(8) =~= Seq::<u8>::empty());
        assert(be_bytes(value as nat, 8) =~= be_bytes(left as nat, 8) + out@.skip(8));
    }
    while i > 0
        invariant
            i <= 8,
            out@.len() == 8,
            be_bytes(value as nat, 8) == be_bytes(left as nat, i as nat) + out@.skip(i as int),
        decreases i,
    {
        let ghost before = out@.skip(i as int);
        let ghost was = left as nat;
        i = i - 1;
        out[i] = (left % 256) as u8;
        left = left / 256;
        proof {
            assert(be_bytes(was, (i + 1) as nat) == be_bytes(left as nat, i as nat).push(
                (was % 256) as u8,
            ));
            assert(be_bytes(left as nat, i as nat) + out@.skip(i as int) =~= be_bytes(
                was,
                (i + 1) as nat,
            ) + before);
        }
    }
    assert(out@.skip(0) =~= out@);
    assert(be_bytes(left as nat, 0) + out@ =~= out@);
    out
}

/// Reads up to eight bytes as one big-endian number.
pub fn read_be(s: &[u8]) -> (r: u64)
    requires
        s@.len() <= 8,
    ensures
        r == be_value(s@),
{
    let n: usize = s.len();
    let mut i: usize = 0;
    let mut value: u64 = 0;
    assert(s@.take(0) =~= Seq::<u8>::empty());
    while i < n
        invariant
            n == s@.len() <= 8,
            i <= n,
            value == be_value(s@.take(i as int)),
        decreases n - i,
    {
        proof {
            let next = s@.take(i + 1);
            assert(next.drop_last() =~= s@.take(i as int));
            assert(next.last() == s@[i as int]);
            lemma_be_value_bound(next);
            lemma_be_limit_mono((i + 1) as nat, 8);
            lemma_be_limits();
        }
        value = value * 256 + s[i] as u64;
        i = i + 1;
    }
    assert(s@.take(n as int) =~= s@);
    value
}

proof fn lemma_be_limit_mono(a: nat, b: nat)
    requires
        a <= b,
    ensures
        be_limit(a) <= be_limit(b),
    decreases b,
{
    if a < b {
        lemma_be_limit_mono(a, (b - 1) as nat);
    }
}

/// A prefix agrees with what it is a prefix of, byte by byte; what follows the
/// prefix is free.
pub proof fn law_prefix_is_byte_by_byte(a: Seq<u8>, b: Seq<u8>)
    ensures
        is_prefix(a, b) <==> a.len() <= b.len() && (forall|i: int|
            0 <= i < a.len() ==> #[trigger] a[i] == b[i]),
        is_prefix(a, b) <==> exists|rest: Seq<u8>| b == #[trigger] (a + rest),
{
    if is_prefix(a, b) {
        assert forall|i: int| 0 <= i < a.len() implies #[trigger] a[i] == b[i] by {
            assert(b.take(a.len() as int)[i] == b[i]);
        }
        assert(b =~= a + b.skip(a.len() as int));
    }
    if a.len() <= b.len() && (forall|i: int| 0 <= i < a.len() ==> #[trigger] a[i] == b[i]) {
        assert(b.take(a.len() as int) =~= a);
    }
    if exists|rest: Seq<u8>| b == #[trigger] (a + rest) {
        let rest = choose|rest: Seq<u8>| b == #[trigger] (a + rest);
        assert(b.take(a.len() as int) =~= a);
    }
}

/// The number that eight bytes stand for, the most significant first.
pub open spec fn number8(b: Seq<u8>) -> int {
    b[0] * 0x100_0000_0000_0000 + b[1] * 0x1_0000_0000_0000 + b[2] * 0x100_0000_0000 + b[3]
        * 0x1_0000_0000 + b[4] * 0x100_0000 + b[5] * 0x1_0000 + b[6] * 0x100 + b[7]
}

/// The number that four bytes stand for, the most significant first.
pub open spec fn number4(b: Seq<u8>) -> int {
    b[0] * 0x100_0000 + b[1] * 0x1_0000 + b[2] * 0x100 + b[3]
}

/// The last four bytes of a number, by their places.
proof fn lemma_value_of_four(s: Seq<u8>)
    requires
        s.len() >= 4,
    ensures
        ({
            let n = s.len() as int;
            be_value(s) == be_value(s.drop_last().drop_last().drop_last().drop_last())
                * 0x1_0000_0000 + s[n - 4] * 0x100_0000 + s[n - 3] * 0x1_0000 + s[n - 2] * 0x100
                + s[n - 1]
        }),
{
    let a = s.drop_last();
    let b = a.drop_last();
    let c = b.drop_last();
    assert(be_value(s) == be_value(a) * 256 + s.last());
    assert(be_value(a) == be_value(b) * 256 + a.last());
    assert(be_value(b) == be_value(c) * 256 + b.last());
    assert(be_value(c) == be_value(c.drop_last()) * 256 + c.last());
}

/// One, four and eight bytes have the value that their places give them, and
/// zero bytes in front change nothing.
pub proof fn law_value_by_places(s: Seq<u8>)
    ensures
        s.len() == 0 ==> be_value(s) == 0,
        s.len() == 1 ==> be_value(s) == s[0],
        s.len() == 4 ==> be_value(s) == number4(s),
        s.len() == 8 ==> be_value(s) == number8(s),
        be_value(seq![0u8] + s) == be_value(s),
    decreases s.len(),
{
    reveal_with_fuel(be_value, 2);
    if s.len() == 4 || s.len() == 8 {
        lemma_value_of_four(s);
        if s.len() == 8 {
            let high = s.take(4);
            assert(s.drop_last().drop_last().drop_last().drop_last() =~= high);
            lemma_value_of_four(high);
            assert(high.drop_last().drop_last().drop_last().drop_last() =~= Seq::<u8>::empty());
        } else {
            assert(s.drop_last().drop_last().drop_last().drop_last() =~= Seq::<u8>::empty());
        }
    }
    let t = seq![0u8] + s;
    if s.len() == 0 {
        assert(t.drop_last() =~= Seq::<u8>::empty());
    } else {
        law_value_by_places(s.drop_last());
        assert(t.drop_last() =~= seq![0u8] + s.drop_last());
        assert(t.last() == s.last());
    }
}

/// A number is written as the bytes whose places give it.
pub proof fn law_bytes_by_places(n: nat)
    ensures
        n <= u64::MAX ==> be_bytes(n, 8).len() == 8 && number8(be_bytes(n, 8)) == n,
        n <= u32::MAX ==> be_bytes(n, 4).len() == 4 && number4(be_bytes(n, 4)) == n,
{
    lemma_be_limits();
    if n <= u64::MAX {
        law_be_round_trip(n, 8);
        law_value_by_places(be_bytes(n, 8));
    }
    if n <= u32::MAX {
        law_be_round_trip(n, 4);
        law_value_by_places(be_bytes(n, 4));
    }
}

/// Two strings are the same but for case where each byte is the same, or the two
/// are a capital and a small letter that are 32 apart.
pub proof fn law_case_is_the_only_difference(a: Seq<u8>, b: Seq<u8>)
    ensures
        same_ignoring_case(a, b) <==> a.len() == b.len() && (forall|i: int|
            0 <= i < a.len() ==> {
                ||| #[trigger] a[i] == b[i]
                ||| 0x41 <= a[i] <= 0x5A && b[i] == a[i] + 32
                ||| 0x41 <= b[i] <= 0x5A && a[i] == b[i] + 32
            }),
{
}

/// What is written stands at the start, and the rest of the buffer stays as it was.
pub proof fn law_overwrite_byte_by_byte(out: Seq<u8>, head: Seq<u8>)
    requires
        head.len() <= out.len(),
    ensures
        overwrite(out, head).len() == out.len(),
        forall|i: int|
            0 <= i < out.len() ==> #[trigger] overwrite(out, head)[i] == (if i < head.len() {
                head[i]
            } else {
                out[i]
            }),
{
}

} // verus!
