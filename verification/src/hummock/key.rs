//! Full keys: a user key followed by eight bytes that encode the epoch.

use vstd::prelude::*;

verus! {

/// Number of bytes that the epoch takes at the end of a full key.
pub const EPOCH_LEN: usize = 8;

/// Lexicographic order on bytes, looking at the positions from `i` on.
pub open spec fn bytes_lt_from(a: Seq<u8>, b: Seq<u8>, i: int) -> bool
    decreases b.len() - i,
{
    if i >= b.len() {
        false
    } else if i >= a.len() {
        true
    } else if a[i] != b[i] {
        a[i] < b[i]
    } else {
        bytes_lt_from(a, b, i + 1)
    }
}

/// `a` comes strictly before `b` in the lexicographic order on bytes.
pub open spec fn bytes_lt(a: Seq<u8>, b: Seq<u8>) -> bool {
    bytes_lt_from(a, b, 0)
}

/// The user key of a full key: all but the epoch.
pub open spec fn user_key_of(full_key: Seq<u8>) -> Seq<u8> {
    full_key.subrange(0, full_key.len() - EPOCH_LEN)
}

/// The encoded epoch of a full key: its last eight bytes.
pub open spec fn epoch_bytes_of(full_key: Seq<u8>) -> Seq<u8> {
    full_key.subrange(full_key.len() - EPOCH_LEN, full_key.len() as int)
}

/// A full key holds at least the epoch.
pub open spec fn is_full_key(key: Seq<u8>) -> bool {
    key.len() >= EPOCH_LEN
}

/// The order of full keys: by user key, then by the encoded epoch.
pub open spec fn full_key_lt(a: Seq<u8>, b: Seq<u8>) -> bool {
    ||| bytes_lt(user_key_of(a), user_key_of(b))
    ||| user_key_of(a) == user_key_of(b) && bytes_lt(epoch_bytes_of(a), epoch_bytes_of(b))
}

/// The byte of `n` that stands at position `i` of its big-endian encoding in eight bytes.
pub open spec fn be_byte(n: u64, i: int) -> u8 {
    ((n as nat) / vstd::arithmetic::power::pow(256, (7 - i) as nat) as nat % 256) as u8
}

/// The full key of `user_key` at `epoch`: newer epochs sort first.
pub open spec fn full_key_spec(user_key: Seq<u8>, epoch: u64) -> Seq<u8> {
    user_key + Seq::new(8, |i: int| be_byte((u64::MAX - epoch) as u64, i))
}

pub proof fn lemma_bytes_lt_irreflexive(a: Seq<u8>, i: int)
    ensures
        !bytes_lt_from(a, a, i),
    decreases a.len() - i,
{
    if i < a.len() {
        lemma_bytes_lt_irreflexive(a, i + 1);
    }
}

proof fn lemma_bytes_trichotomy_from(a: Seq<u8>, b: Seq<u8>, i: int)
    requires
        0 <= i,
        i <= a.len(),
        i <= b.len(),
        forall|j: int| 0 <= j < i ==> a[j] == b[j],
    ensures
        a == b || bytes_lt_from(a, b, i) || bytes_lt_from(b, a, i),
    decreases b.len() - i,
{
    if i < a.len() && i < b.len() {
        if a[i] == b[i] {
            lemma_bytes_trichotomy_from(a, b, i + 1);
        }
    } else if i >= a.len() && i >= b.len() {
        assert(a =~= b);
    }
}

/// Any two byte strings are equal or ordered one way or the other.
pub proof fn lemma_bytes_trichotomy(a: Seq<u8>, b: Seq<u8>)
    ensures
        a == b || bytes_lt(a, b) || bytes_lt(b, a),
{
    lemma_bytes_trichotomy_from(a, b, 0);
}

proof fn lemma_bytes_lt_transitive_from(a: Seq<u8>, b: Seq<u8>, c: Seq<u8>, i: int)
    requires
        0 <= i,
        bytes_lt_from(a, b, i),
        bytes_lt_from(b, c, i),
    ensures
        bytes_lt_from(a, c, i),
    decreases b.len() - i,
{
    if i < a.len() && a[i] == b[i] && b[i] == c[i] {
        lemma_bytes_lt_transitive_from(a, b, c, i + 1);
    }
}

/// The byte order is transitive.
pub proof fn lemma_bytes_lt_transitive(a: Seq<u8>, b: Seq<u8>, c: Seq<u8>)
    requires
        bytes_lt(a, b),
        bytes_lt(b, c),
    ensures
        bytes_lt(a, c),
{
    lemma_bytes_lt_transitive_from(a, b, c, 0);
}

/// The order of full keys is strict and total: of two full keys, exactly one
/// comes first unless they are the same bytes.
pub proof fn law_full_key_order_total(a: Seq<u8>, b: Seq<u8>)
    requires
        is_full_key(a),
        is_full_key(b),
    ensures
        a == b || full_key_lt(a, b) || full_key_lt(b, a),
        !(full_key_lt(a, b) && full_key_lt(b, a)),
        !full_key_lt(a, a),
{
    let (ua, ub) = (user_key_of(a), user_key_of(b));
    let (ea, eb) = (epoch_bytes_of(a), epoch_bytes_of(b));
    lemma_bytes_trichotomy(ua, ub);
    lemma_bytes_trichotomy(ea, eb);
    lemma_bytes_lt_irreflexive(ua, 0);
    lemma_bytes_lt_irreflexive(ea, 0);
    if bytes_lt(ua, ub) && bytes_lt(ub, ua) {
        lemma_bytes_lt_transitive(ua, ub, ua);
    }
    if bytes_lt(ea, eb) && bytes_lt(eb, ea) {
        lemma_bytes_lt_transitive(ea, eb, ea);
    }
    if ua == ub && ea == eb {
        assert(a =~= ua + ea);
        assert(b =~= ub + eb);
    }
}

/// The order of full keys is transitive.
pub proof fn law_full_key_order_transitive(a: Seq<u8>, b: Seq<u8>, c: Seq<u8>)
    requires
        full_key_lt(a, b),
        full_key_lt(b, c),
    ensures
        full_key_lt(a, c),
{
    let (ua, ub, uc) = (user_key_of(a), user_key_of(b), user_key_of(c));
    if bytes_lt(ua, ub) && bytes_lt(ub, uc) {
        lemma_bytes_lt_transitive(ua, ub, uc);
    }
    let (ea, eb, ec) = (epoch_bytes_of(a), epoch_bytes_of(b), epoch_bytes_of(c));
    if bytes_lt(ea, eb) && bytes_lt(eb, ec) {
        lemma_bytes_lt_transitive(ea, eb, ec);
    }
}

/// The eight bytes of a number, the highest first.
pub open spec fn be_bytes(n: u64) -> Seq<u8> {
    Seq::new(8, |i: int| be_byte(n, i))
}

proof fn lemma_be_order_from(n: u64, m: u64, i: int)
    requires
        n < m,
        0 <= i <= 8,
        n as int / vstd::arithmetic::power::pow(256, (8 - i) as nat) == m as int / vstd::arithmetic::power::pow(
            256,
            (8 - i) as nat,
        ),
    ensures
        bytes_lt_from(be_bytes(n), be_bytes(m), i),
    decreases 8 - i,
{
    reveal_with_fuel(vstd::arithmetic::power::pow, 9);
    if i < 8 {
        let d = vstd::arithmetic::power::pow(256, (7 - i) as nat);
        vstd::arithmetic::power::lemma_pow_positive(256, (7 - i) as nat);
        let (q, p) = (n as int / d, m as int / d);
        assert(d * 256 == vstd::arithmetic::power::pow(256, (8 - i) as nat));
        vstd::arithmetic::div_mod::lemma_div_denominator(n as int, d, 256);
        vstd::arithmetic::div_mod::lemma_div_denominator(m as int, d, 256);
        vstd::arithmetic::div_mod::lemma_div_is_ordered(n as int, m as int, d);
        assert(q / 256 == p / 256);
        assert(be_byte(n, i) == q % 256);
        assert(be_byte(m, i) == p % 256);
        if q == p {
            lemma_be_order_from(n, m, i + 1);
        }
    }
}

/// The bytes of a smaller number come first.
proof fn lemma_be_order(n: u64, m: u64)
    requires
        n < m,
    ensures
        bytes_lt(be_bytes(n), be_bytes(m)),
{
    assert(vstd::arithmetic::power::pow(256, 8) == 0x1_0000_0000_0000_0000) by {
        reveal_with_fuel(vstd::arithmetic::power::pow, 9);
    }
    lemma_be_order_from(n, m, 0);
}

/// The user key and the epoch bytes of a full key are those that it was made of.
pub proof fn law_full_key_parts(user_key: Seq<u8>, epoch: u64)
    ensures
        is_full_key(full_key_spec(user_key, epoch)),
        user_key_of(full_key_spec(user_key, epoch)) == user_key,
        epoch_bytes_of(full_key_spec(user_key, epoch)) == be_bytes((u64::MAX - epoch) as u64),
{
    let full = full_key_spec(user_key, epoch);
    assert(user_key_of(full) =~= user_key);
    assert(epoch_bytes_of(full) =~= be_bytes((u64::MAX - epoch) as u64));
}

/// Of two versions of a user key, the newer one comes first.
pub proof fn law_newer_epoch_first(user_key: Seq<u8>, newer: u64, older: u64)
    requires
        newer > older,
    ensures
        full_key_lt(full_key_spec(user_key, newer), full_key_spec(user_key, older)),
{
    law_full_key_parts(user_key, newer);
    law_full_key_parts(user_key, older);
    lemma_be_order((u64::MAX - newer) as u64, (u64::MAX - older) as u64);
}

/// Whether `a[a_from..a_to]` comes strictly before `b[b_from..b_to]`.
fn range_less(a: &[u8], a_from: usize, a_to: usize, b: &[u8], b_from: usize, b_to: usize) -> (r: bool)
    requires
        a_from <= a_to <= a@.len(),
        b_from <= b_to <= b@.len(),
    ensures
        r == bytes_lt(
            a@.subrange(a_from as int, a_to as int),
            b@.subrange(b_from as int, b_to as int),
        ),
{
    let ghost sa = a@.subrange(a_from as int, a_to as int);
    let ghost sb = b@.subrange(b_from as int, b_to as int);
    let mut i: usize = 0;
    while i < b_to - b_from
        invariant
            a_from <= a_to <= a@.len(),
            b_from <= b_to <= b@.len(),
            i <= b_to - b_from,
            sa == a@.subrange(a_from as int, a_to as int),
            sb == b@.subrange(b_from as int, b_to as int),
            bytes_lt(sa, sb) == bytes_lt_from(sa, sb, i as int),
        decreases b_to - b_from - i,
    {
        if i >= a_to - a_from {
            return true;
        }
        let x: u8 = a[a_from + i];
        let y: u8 = b[b_from + i];
        assert(sa[i as int] == x && sb[i as int] == y);
        if x != y {
            return x < y;
        }
        i = i + 1;
    }
    false
}

/// Whether the bytes `a` come strictly before the bytes `b`.
pub fn bytes_less(a: &[u8], b: &[u8]) -> (r: bool)
    ensures
        r == bytes_lt(a@, b@),
{
    proof {
        assert(a@.subrange(0, a@.len() as int) =~= a@);
        assert(b@.subrange(0, b@.len() as int) =~= b@);
    }
    range_less(a, 0, a.len(), b, 0, b.len())
}

/// Whether two byte strings are the same.
pub fn bytes_equal(a: &[u8], b: &[u8]) -> (r: bool)
    ensures
        r == (a@ == b@),
{
    if a.len() != b.len() {
        return false;
    }
    let mut i: usize = 0;
    while i < a.len()
        invariant
            a@.len() == b@.len(),
            i <= a@.len(),
            forall|j: int| 0 <= j < i ==> a@[j] == b@[j],
        decreases a@.len() - i,
    {
        if a[i] != b[i] {
            return false;
        }
        i = i + 1;
    }
    proof {
        assert(a@ =~= b@);
    }
    true
}

/// Whether the full key `a` comes strictly before the full key `b`.
pub fn full_key_less(a: &[u8], b: &[u8]) -> (r: bool)
    requires
        is_full_key(a@),
        is_full_key(b@),
    ensures
        r == full_key_lt(a@, b@),
{
    let a_split: usize = a.len() - EPOCH_LEN;
    let b_split: usize = b.len() - EPOCH_LEN;
    if range_less(a, 0, a_split, b, 0, b_split) {
        return true;
    }
    if range_less(b, 0, b_split, a, 0, a_split) {
        proof {
            lemma_bytes_lt_irreflexive(user_key_of(a@), 0);
        }
        return false;
    }
    proof {
        lemma_bytes_trichotomy(user_key_of(a@), user_key_of(b@));
    }
    range_less(a, a_split, a.len(), b, b_split, b.len())
}

/// The user key of a full key.
pub fn user_key(full_key: &[u8]) -> (r: Vec<u8>)
    requires
        is_full_key(full_key@),
    ensures
        r@ == user_key_of(full_key@),
{
    let mut r: Vec<u8> = Vec::new();
    let end: usize = full_key.len() - EPOCH_LEN;
    let mut i: usize = 0;
    while i < end
        invariant
            end == full_key@.len() - EPOCH_LEN,
            i <= end,
            r@ == full_key@.subrange(0, i as int),
        decreases end - i,
    {
        r.push(full_key[i]);
        i = i + 1;
    }
    r
}

/// A copy of `bytes`.
pub fn copy_bytes(bytes: &[u8]) -> (r: Vec<u8>)
    ensures
        r@ == bytes@,
{
    let mut r: Vec<u8> = Vec::new();
    let mut i: usize = 0;
    while i < bytes.len()
        invariant
            i <= bytes@.len(),
            r@ == bytes@.subrange(0, i as int),
        decreases bytes@.len() - i,
    {
        r.push(bytes[i]);
        i = i + 1;
    }
    proof {
        assert(bytes@.subrange(0, bytes@.len() as int) =~= bytes@);
    }
    r
}

/// The full key of `user_key` at `epoch`.
pub fn full_key(user_key: &[u8], epoch: u64) -> (r: Vec<u8>)
    ensures
        r@ == full_key_spec(user_key@, epoch),
{
    let mut r: Vec<u8> = copy_bytes(user_key);
    let inverted: u64 = u64::MAX - epoch;
    let mut divisor: u64 = 0x100_0000_0000_0000;
    let mut i: usize = 0;
    proof {
        reveal_with_fuel(vstd::arithmetic::power::pow, 9);
    }
    while i < 8
        invariant
            i <= 8,
            inverted == u64::MAX - epoch,
            i < 8 ==> divisor == vstd::arithmetic::power::pow(256, (7 - i) as nat),
            r@ == user_key@ + Seq::new(i as nat, |j: int| be_byte(inverted, j)),
        decreases 8 - i,
    {
        proof {
            reveal_with_fuel(vstd::arithmetic::power::pow, 9);
        }
        let ghost before = r@;
        let byte: u8 = (inverted / divisor % 256) as u8;
        r.push(byte);
        assert(byte == be_byte(inverted, i as int));
        divisor = divisor / 256;
        i = i + 1;
        assert(r@ =~= user_key@ + Seq::new(i as nat, |j: int| be_byte(inverted, j)));
    }
    r
}

/// How many bytes are left of `key` when the bytes `0xff` at its end are dropped.
pub open spec fn without_max_tail(key: Seq<u8>) -> Seq<u8>
    decreases key.len(),
{
    if key.len() > 0 && key.last() == 0xff {
        without_max_tail(key.drop_last())
    } else {
        key
    }
}

/// The least key that is larger than every key which starts with `key`; empty
/// if there is none.
pub open spec fn next_key_spec(key: Seq<u8>) -> Seq<u8> {
    let head = without_max_tail(key);
    if head.len() == 0 {
        Seq::empty()
    } else {
        head.drop_last().push((head.last() + 1) as u8)
    }
}

proof fn lemma_without_max_tail(key: Seq<u8>)
    ensures
        without_max_tail(key).len() <= key.len(),
        without_max_tail(key) == key.subrange(0, without_max_tail(key).len() as int),
        without_max_tail(key).len() > 0 ==> without_max_tail(key).last() < 0xff,
    decreases key.len(),
{
    if key.len() > 0 && key.last() == 0xff {
        lemma_without_max_tail(key.drop_last());
        let n = without_max_tail(key).len() as int;
        assert(key.drop_last().subrange(0, n) =~= key.subrange(0, n));
    } else {
        assert(key.subrange(0, key.len() as int) =~= key);
    }
}

/// Keys that share their first `n` bytes and differ at the next one are
/// ordered by that byte.
proof fn lemma_first_difference(a: Seq<u8>, b: Seq<u8>, n: int, i: int)
    requires
        0 <= i <= n < a.len(),
        n < b.len(),
        forall|j: int| 0 <= j < n ==> a[j] == b[j],
        a[n] < b[n],
    ensures
        bytes_lt_from(a, b, i),
    decreases n - i,
{
    if i < n {
        lemma_first_difference(a, b, n, i + 1);
    }
}

/// Every key that starts with `key` comes before the next key, if there is one.
pub proof fn law_next_key_bounds_prefix(key: Seq<u8>, suffix: Seq<u8>)
    requires
        next_key_spec(key).len() > 0,
    ensures
        bytes_lt(key + suffix, next_key_spec(key)),
{
    lemma_without_max_tail(key);
    let head = without_max_tail(key);
    let n = head.len() - 1;
    let next = next_key_spec(key);
    let full = key + suffix;
    assert forall|j: int| 0 <= j < n implies full[j] == next[j] by {
        assert(head[j] == key[j]);
    }
    assert(full[n] == head[n]);
    lemma_first_difference(full, next, n, 0);
}

/// The least key that is larger than every key which starts with `key`; empty
/// if there is none.
pub fn next_key(key: &[u8]) -> (r: Vec<u8>)
    ensures
        r@ == next_key_spec(key@),
{
    let mut n: usize = key.len();
    proof {
        assert(key@.subrange(0, n as int) =~= key@);
    }
    while n > 0 && key[n - 1] == 0xff
        invariant
            n <= key@.len(),
            without_max_tail(key@) == without_max_tail(key@.subrange(0, n as int)),
        decreases n,
    {
        proof {
            assert(key@.subrange(0, n as int).drop_last() =~= key@.subrange(0, n - 1));
        }
        n = n - 1;
    }
    let ghost head = key@.subrange(0, n as int);
    let mut r: Vec<u8> = Vec::new();
    if n == 0 {
        return r;
    }
    let mut i: usize = 0;
    while i < n - 1
        invariant
            0 < n <= key@.len(),
            i <= n - 1,
            r@ == key@.subrange(0, i as int),
        decreases n - i,
    {
        r.push(key[i]);
        i = i + 1;
    }
    r.push(key[n - 1] + 1);
    proof {
        assert(r@ =~= head.drop_last().push((head.last() + 1) as u8));
    }
    r
}

/// Bytes are ordered by the first one in which they differ, and bytes that are the beginning of others
/// come before these.
pub proof fn law_first_difference_decides(a: Seq<u8>, b: Seq<u8>, n: int)
    requires
        0 <= n <= a.len(),
        n < b.len(),
        forall|j: int| 0 <= j < n ==> a[j] == b[j],
        n == a.len() || a[n] < b[n],
    ensures
        bytes_lt(a, b),
        !bytes_lt(b, a),
{
    lemma_bytes_lt_irreflexive(a, 0);
    if n < a.len() {
        lemma_first_difference(a, b, n, 0);
    } else {
        lemma_prefix_first(a, b, 0);
    }
    if bytes_lt(b, a) {
        lemma_bytes_lt_transitive(a, b, a);
    }
}

proof fn lemma_prefix_first(a: Seq<u8>, b: Seq<u8>, i: int)
    requires
        0 <= i <= a.len() < b.len(),
        forall|j: int| 0 <= j < a.len() ==> a[j] == b[j],
    ensures
        bytes_lt_from(a, b, i),
    decreases a.len() - i,
{
    if i < a.len() {
        lemma_prefix_first(a, b, i + 1);
    }
}

/// The next key adds one to the last byte of the key that is not the largest one, and drops what is
/// behind it; there is none exactly if all bytes are the largest one.
pub proof fn law_next_key_adds_one(key: Seq<u8>)
    ensures
        ({
            let next = next_key_spec(key);
            let n = next.len() - 1;
            &&& next.len() <= key.len()
            &&& next.len() > 0 ==> key[n] < 0xff && next[n] == key[n] + 1
            &&& forall|j: int| 0 <= j < n ==> #[trigger] next[j] == key[j]
            &&& forall|j: int| n < j < key.len() && 0 <= j ==> #[trigger] key[j] == 0xff
        }),
{
    lemma_without_max_tail(key);
    lemma_tail_is_max(key);
    let head = without_max_tail(key);
    assert forall|j: int| 0 <= j < next_key_spec(key).len() - 1 implies #[trigger] next_key_spec(key)[j] == key[j] by {
        assert(head[j] == key[j]);
    }
}

proof fn lemma_tail_is_max(key: Seq<u8>)
    ensures
        forall|j: int| without_max_tail(key).len() <= j < key.len() ==> #[trigger] key[j] == 0xff,
    decreases key.len(),
{
    if key.len() > 0 && key.last() == 0xff {
        lemma_tail_is_max(key.drop_last());
        assert forall|j: int| without_max_tail(key).len() <= j < key.len() implies #[trigger] key[j] == 0xff by {
            if j < key.len() - 1 {
                assert(key.drop_last()[j] == key[j]);
            }
        }
    }
}

/// The bytes of an epoch are those of its distance from the largest one, the highest first.
pub proof fn law_epoch_is_read_back(user_key: Seq<u8>, epoch: u64)
    ensures
        ({
            let b = epoch_bytes_of(full_key_spec(user_key, epoch));
            &&& b.len() == 8
            &&& b[0] * 0x100_0000_0000_0000 + b[1] * 0x1_0000_0000_0000 + b[2] * 0x100_0000_0000 + b[3] * 0x1_0000_0000
                + b[4] * 0x100_0000 + b[5] * 0x1_0000 + b[6] * 0x100 + b[7] == u64::MAX - epoch
        }),
{
    law_full_key_parts(user_key, epoch);
    let n = (u64::MAX - epoch) as u64;
    let x = n as int;
    assert(vstd::arithmetic::power::pow(256, 0) == 1 && vstd::arithmetic::power::pow(256, 1) == 0x100
        && vstd::arithmetic::power::pow(256, 2) == 0x1_0000 && vstd::arithmetic::power::pow(256, 3) == 0x100_0000
        && vstd::arithmetic::power::pow(256, 4) == 0x1_0000_0000 && vstd::arithmetic::power::pow(256, 5)
        == 0x100_0000_0000 && vstd::arithmetic::power::pow(256, 6) == 0x1_0000_0000_0000
        && vstd::arithmetic::power::pow(256, 7) == 0x100_0000_0000_0000) by {
        reveal_with_fuel(vstd::arithmetic::power::pow, 9);
    }
    let b = be_bytes(n);
    assert(b == epoch_bytes_of(full_key_spec(user_key, epoch)));
    assert(b[0] == be_byte(n, 0) && be_byte(n, 0) == x / 0x100_0000_0000_0000 % 0x100);
    assert(b[1] == be_byte(n, 1) && be_byte(n, 1) == x / 0x1_0000_0000_0000 % 0x100);
    assert(b[2] == be_byte(n, 2) && be_byte(n, 2) == x / 0x100_0000_0000 % 0x100);
    assert(b[3] == be_byte(n, 3) && be_byte(n, 3) == x / 0x1_0000_0000 % 0x100);
    assert(b[4] == be_byte(n, 4) && be_byte(n, 4) == x / 0x100_0000 % 0x100);
    assert(b[5] == be_byte(n, 5) && be_byte(n, 5) == x / 0x1_0000 % 0x100);
    assert(b[6] == be_byte(n, 6) && be_byte(n, 6) == x / 0x100 % 0x100);
    assert(n as nat / 1 == n as nat);
    assert(b[7] == be_byte(n, 7) && be_byte(n, 7) == x % 0x100);
    lemma_digits(x);
}

/// A number below the eighth power of 256 is the sum of its digits, each times its power.
proof fn lemma_digits(x: int)
    requires
        0 <= x <= u64::MAX,
    ensures
        (x / 0x100_0000_0000_0000 % 0x100) * 0x100_0000_0000_0000 + (x / 0x1_0000_0000_0000 % 0x100) * 0x1_0000_0000_0000
            + (x / 0x100_0000_0000 % 0x100) * 0x100_0000_0000 + (x / 0x1_0000_0000 % 0x100) * 0x1_0000_0000 + (x
            / 0x100_0000 % 0x100) * 0x100_0000 + (x / 0x1_0000 % 0x100) * 0x1_0000 + (x / 0x100 % 0x100) * 0x100 + x
            % 0x100 == x,
{
    let q1 = x / 0x100;
    let q2 = q1 / 0x100;
    let q3 = q2 / 0x100;
    let q4 = q3 / 0x100;
    let q5 = q4 / 0x100;
    let q6 = q5 / 0x100;
    let q7 = q6 / 0x100;
    assert(q2 == x / 0x1_0000);
    assert(q3 == x / 0x100_0000);
    assert(q4 == x / 0x1_0000_0000);
    assert(q5 == x / 0x100_0000_0000);
    assert(q6 == x / 0x1_0000_0000_0000);
    assert(q7 == x / 0x100_0000_0000_0000);
    assert(0 <= q7 < 0x100);
}

} // verus!
