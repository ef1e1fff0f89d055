//! Maps keyed by validator addresses, held as vectors sorted by the byte order
//! of the keys (the order in which an ordered map of strings iterates).
use vstd::prelude::*;
use crate::seqsum::{sum, all_nonneg, lemma_sum_nonneg, lemma_sum_push, lemma_sum_update, lemma_sum_insert};

verus! {

/// Strict lexicographic order on byte strings.
pub open spec fn bytes_lt(a: Seq<u8>, b: Seq<u8>) -> bool
    decreases a.len(),
{
    if a.len() == 0 {
        b.len() > 0
    } else if b.len() == 0 {
        false
    } else if a[0] < b[0] {
        true
    } else if a[0] > b[0] {
        false
    } else {
        bytes_lt(a.drop_first(), b.drop_first())
    }
}

/// The order of two keys: that of their UTF-8 encodings.
pub open spec fn key_lt(a: Seq<char>, b: Seq<char>) -> bool {
    bytes_lt(vstd::utf8::encode_utf8(a), vstd::utf8::encode_utf8(b))
}

pub proof fn lemma_bytes_lt_irreflexive(a: Seq<u8>)
    ensures
        !bytes_lt(a, a),
    decreases a.len(),
{
    if a.len() > 0 {
        lemma_bytes_lt_irreflexive(a.drop_first());
    }
}

pub proof fn lemma_bytes_lt_transitive(a: Seq<u8>, b: Seq<u8>, c: Seq<u8>)
    requires
        bytes_lt(a, b),
        bytes_lt(b, c),
    ensures
        bytes_lt(a, c),
    decreases a.len(),
{
    if a.len() > 0 && b.len() > 0 && c.len() > 0 {
        if a[0] == b[0] && b[0] == c[0] {
            lemma_bytes_lt_transitive(a.drop_first(), b.drop_first(), c.drop_first());
        }
    }
}

pub proof fn lemma_bytes_lt_asymmetric(a: Seq<u8>, b: Seq<u8>)
    requires
        bytes_lt(a, b),
    ensures
        !bytes_lt(b, a),
{
    if bytes_lt(b, a) {
        lemma_bytes_lt_transitive(a, b, a);
        lemma_bytes_lt_irreflexive(a);
    }
}

pub proof fn lemma_key_lt_irreflexive(a: Seq<char>)
    ensures
        !key_lt(a, a),
{
    lemma_bytes_lt_irreflexive(vstd::utf8::encode_utf8(a));
}

pub proof fn lemma_key_lt_transitive(a: Seq<char>, b: Seq<char>, c: Seq<char>)
    requires
        key_lt(a, b),
        key_lt(b, c),
    ensures
        key_lt(a, c),
{
    lemma_bytes_lt_transitive(
        vstd::utf8::encode_utf8(a),
        vstd::utf8::encode_utf8(b),
        vstd::utf8::encode_utf8(c),
    );
}

/// Distinct keys are ordered; equal ones are not.
pub proof fn lemma_key_lt_ne(a: Seq<char>, b: Seq<char>)
    requires
        key_lt(a, b),
    ensures
        a != b,
        !key_lt(b, a),
{
    lemma_key_lt_irreflexive(a);
    lemma_bytes_lt_asymmetric(vstd::utf8::encode_utf8(a), vstd::utf8::encode_utf8(b));
}

/// The outcome of comparing two keys.
#[derive(Debug, Clone, Copy, PartialEq, Eq, Structural)]
pub enum KeyOrder {
    Less,
    Equal,
    Greater,
}

proof fn lemma_bytes_lt_skip(a: Seq<u8>, b: Seq<u8>, i: int)
    requires
        0 <= i < a.len(),
        i < b.len(),
        a[i] == b[i],
    ensures
        bytes_lt(a.skip(i), b.skip(i)) == bytes_lt(a.skip(i + 1), b.skip(i + 1)),
{
    assert(a.skip(i).drop_first() =~= a.skip(i + 1));
    assert(b.skip(i).drop_first() =~= b.skip(i + 1));
}

/// Compares two byte strings lexicographically.
fn compare_bytes(x: &[u8], y: &[u8]) -> (r: KeyOrder)
    ensures
        (r == KeyOrder::Less) == bytes_lt(x@, y@),
        (r == KeyOrder::Greater) == bytes_lt(y@, x@),
        (r == KeyOrder::Equal) ==> x@ =~= y@,
{
    let ghost ea = x@;
    let ghost eb = y@;
    let mut i: usize = 0;
    proof {
        assert(ea.skip(0) =~= ea);
        assert(eb.skip(0) =~= eb);
    }
    while i < x.len() && i < y.len()
        invariant
            x@ == ea,
            y@ == eb,
            i <= x@.len(),
            i <= y@.len(),
            ea.take(i as int) =~= eb.take(i as int),
            bytes_lt(ea, eb) == bytes_lt(ea.skip(i as int), eb.skip(i as int)),
            bytes_lt(eb, ea) == bytes_lt(eb.skip(i as int), ea.skip(i as int)),
        decreases x@.len() - i,
    {
        if x[i] < y[i] {
            proof {
                assert(ea.skip(i as int)[0] == ea[i as int]);
                assert(eb.skip(i as int)[0] == eb[i as int]);
            }
            return KeyOrder::Less;
        }
        if x[i] > y[i] {
            proof {
                assert(ea.skip(i as int)[0] == ea[i as int]);
                assert(eb.skip(i as int)[0] == eb[i as int]);
            }
            return KeyOrder::Greater;
        }
        proof {
            lemma_bytes_lt_skip(ea, eb, i as int);
            lemma_bytes_lt_skip(eb, ea, i as int);
            assert(ea.take(i + 1) =~= ea.take(i as int).push(ea[i as int]));
            assert(eb.take(i + 1) =~= eb.take(i as int).push(eb[i as int]));
        }
        i = i + 1;
    }
    if i == x.len() && i == y.len() {
        proof {
            assert(ea =~= ea.take(i as int));
            assert(eb =~= eb.take(i as int));
            lemma_bytes_lt_irreflexive(ea);
        }
        KeyOrder::Equal
    } else if i == x.len() {
        proof {
            assert(ea.skip(i as int).len() == 0);
            assert(eb.skip(i as int).len() > 0);
        }
        KeyOrder::Less
    } else {
        proof {
            assert(eb.skip(i as int).len() == 0);
            assert(ea.skip(i as int).len() > 0);
        }
        KeyOrder::Greater
    }
}

/// Compares two keys in the byte order of their UTF-8 encodings.
pub fn compare_keys(a: &String, b: &String) -> (r: KeyOrder)
    ensures
        (r == KeyOrder::Less) == key_lt(a@, b@),
        (r == KeyOrder::Equal) == (a@ == b@),
        (r == KeyOrder::Greater) == key_lt(b@, a@),
{
    let x = a.as_str().as_bytes();
    let y = b.as_str().as_bytes();
    let r = compare_bytes(x, y);
    proof {
        if r == KeyOrder::Equal {
            vstd::utf8::encode_utf8_decode_utf8(a@);
            vstd::utf8::encode_utf8_decode_utf8(b@);
        } else if a@ == b@ {
            lemma_bytes_lt_irreflexive(x@);
        }
    }
    r
}


/// The keys of a list of (key, amount) pairs are strictly ascending.
pub open spec fn keys_sorted(s: Seq<(String, u128)>) -> bool {
    forall|i: int, j: int| 0 <= i < j < s.len() ==> key_lt(s[i].0@, s[j].0@)
}

/// The amount recorded for a key: that of the last pair with this key, or 0 if
/// there is none (the value an ordered map collected from the pairs holds).
pub open spec fn lookup(s: Seq<(String, u128)>, k: Seq<char>) -> int
    decreases s.len(),
{
    if s.len() == 0 {
        0
    } else if s.last().0@ == k {
        s.last().1 as int
    } else {
        lookup(s.drop_last(), k)
    }
}

pub proof fn lemma_lookup_bounds(s: Seq<(String, u128)>, k: Seq<char>)
    ensures
        0 <= lookup(s, k) <= u128::MAX,
    decreases s.len(),
{
    if s.len() > 0 {
        lemma_lookup_bounds(s.drop_last(), k);
    }
}

/// The amounts of a list of pairs.
pub open spec fn pair_amounts(s: Seq<(String, u128)>) -> Seq<int> {
    s.map_values(|p: (String, u128)| p.1 as int)
}

/// The sum of the amounts of a list of pairs.
pub open spec fn pair_total(s: Seq<(String, u128)>) -> int {
    sum(pair_amounts(s))
}

pub proof fn lemma_pair_total_nonneg(s: Seq<(String, u128)>)
    ensures
        all_nonneg(pair_amounts(s)),
        pair_total(s) >= 0,
{
    lemma_sum_nonneg(pair_amounts(s));
}

pub proof fn lemma_pair_total_push(s: Seq<(String, u128)>, p: (String, u128))
    ensures
        pair_total(s.push(p)) == pair_total(s) + p.1,
{
    assert(pair_amounts(s.push(p)) =~= pair_amounts(s).push(p.1 as int));
    lemma_sum_push(pair_amounts(s), p.1 as int);
}

/// The amount of any key is at most the total of the list.
pub proof fn lemma_lookup_le_total(s: Seq<(String, u128)>, k: Seq<char>)
    ensures
        0 <= lookup(s, k) <= pair_total(s),
    decreases s.len(),
{
    if s.len() > 0 {
        assert(pair_amounts(s).drop_last() =~= pair_amounts(s.drop_last()));
        lemma_lookup_le_total(s.drop_last(), k);
        lemma_pair_total_nonneg(s.drop_last());
    }
}

/// Some pair has this key.
pub open spec fn has_key(s: Seq<(String, u128)>, k: Seq<char>) -> bool {
    exists|i: int| 0 <= i < s.len() && s[i].0@ == k
}

pub proof fn lemma_sorted_distinct(s: Seq<(String, u128)>, i: int, j: int)
    requires
        keys_sorted(s),
        0 <= i < s.len(),
        0 <= j < s.len(),
        i != j,
    ensures
        s[i].0@ != s[j].0@,
{
    if i < j {
        lemma_key_lt_ne(s[i].0@, s[j].0@);
    } else {
        lemma_key_lt_ne(s[j].0@, s[i].0@);
    }
}

/// In a sorted list, the amount of a key is that of the pair holding it.
pub proof fn lemma_lookup_at(s: Seq<(String, u128)>, i: int)
    requires
        keys_sorted(s),
        0 <= i < s.len(),
    ensures
        lookup(s, s[i].0@) == s[i].1,
    decreases s.len(),
{
    if i != s.len() - 1 {
        lemma_sorted_distinct(s, i, s.len() - 1);
        assert(s.drop_last()[i] == s[i]);
        lemma_lookup_at(s.drop_last(), i);
    }
}

/// A key held by no pair has amount 0.
pub proof fn lemma_lookup_absent(s: Seq<(String, u128)>, k: Seq<char>)
    requires
        !has_key(s, k),
    ensures
        lookup(s, k) == 0,
    decreases s.len(),
{
    if s.len() > 0 {
        assert(s.last().0@ != k);
        assert(!has_key(s.drop_last(), k)) by {
            if has_key(s.drop_last(), k) {
                let i = choose|i: int| 0 <= i < s.drop_last().len() && s.drop_last()[i].0@ == k;
                assert(s[i].0@ == k);
            }
        }
        lemma_lookup_absent(s.drop_last(), k);
    }
}

/// Replacing the amount of a pair changes only the amount of its key.
pub proof fn lemma_lookup_update(s: Seq<(String, u128)>, i: int, key: String, v: u128, k: Seq<char>)
    requires
        keys_sorted(s),
        0 <= i < s.len(),
        key@ == s[i].0@,
    ensures
        lookup(s.update(i, (key, v)), k) == if k == s[i].0@ {
            v as int
        } else {
            lookup(s, k)
        },
    decreases s.len(),
{
    let t = s.update(i, (key, v));
    if i == s.len() - 1 {
        assert(t.drop_last() =~= s.drop_last());
    } else {
        assert(t.drop_last() =~= s.drop_last().update(i, (key, v)));
        assert(s.drop_last()[i] == s[i]);
        lemma_lookup_update(s.drop_last(), i, key, v, k);
        if k == s[i].0@ {
            lemma_sorted_distinct(s, i, s.len() - 1);
        }
    }
}

/// Inserting a pair with a new key only adds that key.
pub proof fn lemma_lookup_insert(s: Seq<(String, u128)>, p: int, key: String, v: u128, k: Seq<char>)
    requires
        0 <= p <= s.len(),
        !has_key(s, key@),
    ensures
        lookup(s.insert(p, (key, v)), k) == if k == key@ {
            v as int
        } else {
            lookup(s, k)
        },
    decreases s.len(),
{
    let t = s.insert(p, (key, v));
    if p == s.len() {
        assert(t.drop_last() =~= s);
    } else {
        assert(t.drop_last() =~= s.drop_last().insert(p, (key, v)));
        assert(t.last() == s.last());
        assert(s.last().0@ != key@);
        assert(!has_key(s.drop_last(), key@)) by {
            if has_key(s.drop_last(), key@) {
                let i = choose|i: int| 0 <= i < s.drop_last().len() && s.drop_last()[i].0@ == key@;
                assert(s[i].0@ == key@);
            }
        }
        lemma_lookup_insert(s.drop_last(), p, key, v, k);
    }
}

/// The pairs whose key is not `k`, in order.
pub open spec fn remove_key(s: Seq<(String, u128)>, k: Seq<char>) -> Seq<(String, u128)>
    decreases s.len(),
{
    if s.len() == 0 {
        s
    } else {
        let rest = remove_key(s.drop_last(), k);
        if s.last().0@ != k {
            rest.push(s.last())
        } else {
            rest
        }
    }
}

/// Removing a key from a sorted list keeps it sorted, takes away exactly the
/// amount of that key, and keeps the other amounts.
pub proof fn lemma_remove_key(s: Seq<(String, u128)>, k: Seq<char>)
    requires
        keys_sorted(s),
    ensures
        keys_sorted(remove_key(s, k)),
        forall|a: int|
            0 <= a < remove_key(s, k).len() ==> exists|j: int|
                0 <= j < s.len() && #[trigger] remove_key(s, k)[a] == s[j],
        forall|k2: Seq<char>|
            #[trigger] lookup(remove_key(s, k), k2) == if k2 == k {
                0
            } else {
                lookup(s, k2)
            },
        pair_total(remove_key(s, k)) == pair_total(s) - lookup(s, k),
    decreases s.len(),
{
    if s.len() > 0 {
        let d = s.drop_last();
        let last = s.last();
        assert(keys_sorted(d));
        lemma_remove_key(d, k);
        let fd = remove_key(d, k);
        lemma_pair_total_push(d, last);
        assert(s =~= d.push(last));
        if last.0@ != k {
            let g = fd.push(last);
            lemma_pair_total_push(fd, last);
            assert forall|a: int, b: int| 0 <= a < b < g.len() implies key_lt(g[a].0@, g[b].0@) by {
                if b == fd.len() {
                    assert(g[a] == fd[a]);
                    let j = choose|j: int| 0 <= j < d.len() && fd[a] == d[j];
                    assert(s[j] == d[j]);
                } else {
                    assert(g[a] == fd[a]);
                    assert(g[b] == fd[b]);
                }
            }
            assert forall|a: int| 0 <= a < g.len() implies exists|j: int|
                0 <= j < s.len() && #[trigger] g[a] == s[j] by {
                if a == fd.len() {
                    assert(g[a] == s[s.len() - 1]);
                } else {
                    let j = choose|j: int| 0 <= j < d.len() && fd[a] == d[j];
                    assert(g[a] == s[j]);
                }
            }
            assert forall|k2: Seq<char>| #[trigger] lookup(g, k2) == if k2 == k {
                0
            } else {
                lookup(s, k2)
            } by {
                assert(g.drop_last() =~= fd);
                assert(lookup(fd, k2) == if k2 == k {
                    0
                } else {
                    lookup(d, k2)
                });
            }
        } else {
            assert(!has_key(d, k)) by {
                if has_key(d, k) {
                    let j = choose|j: int| 0 <= j < d.len() && d[j].0@ == k;
                    assert(s[j] == d[j]);
                    lemma_key_lt_irreflexive(k);
                }
            }
            lemma_lookup_absent(d, k);
            assert forall|a: int| 0 <= a < fd.len() implies exists|j: int|
                0 <= j < s.len() && #[trigger] fd[a] == s[j] by {
                let j = choose|j: int| 0 <= j < d.len() && fd[a] == d[j];
                assert(fd[a] == s[j]);
            }
            assert forall|k2: Seq<char>| #[trigger] lookup(fd, k2) == if k2 == k {
                0
            } else {
                lookup(s, k2)
            } by {
                assert(lookup(fd, k2) == if k2 == k {
                    0
                } else {
                    lookup(d, k2)
                });
            }
        }
    }
}

/// A sorted list whose every amount is zero totals zero.
pub proof fn lemma_zero_lookups_total(s: Seq<(String, u128)>)
    requires
        keys_sorted(s),
        forall|k: Seq<char>| #[trigger] lookup(s, k) == 0,
    ensures
        pair_total(s) == 0,
{
    assert forall|i: int| 0 <= i < pair_amounts(s).len() implies pair_amounts(s)[i] == 0 by {
        lemma_lookup_at(s, i);
        assert(lookup(s, s[i].0@) == 0);
    }
    lemma_all_zero_sum(pair_amounts(s));
}

proof fn lemma_all_zero_sum(s: Seq<int>)
    requires
        forall|i: int| 0 <= i < s.len() ==> s[i] == 0,
    ensures
        sum(s) == 0,
    decreases s.len(),
{
    if s.len() > 0 {
        lemma_all_zero_sum(s.drop_last());
    }
}

/// Where a key is in a sorted list of pairs.
pub fn find_key(s: &Vec<(String, u128)>, k: &String) -> (r: (usize, bool))
    requires
        keys_sorted(s@),
    ensures
        r.0 <= s@.len(),
        forall|i: int| 0 <= i < r.0 ==> key_lt(#[trigger] s@[i].0@, k@),
        r.1 ==> r.0 < s@.len() && s@[r.0 as int].0@ == k@,
        !r.1 ==> forall|i: int| r.0 <= i < s@.len() ==> key_lt(k@, #[trigger] s@[i].0@),
        r.1 == has_key(s@, k@),
{
    let mut p: usize = 0;
    while p < s.len()
        invariant
            p <= s@.len(),
            keys_sorted(s@),
            forall|i: int| 0 <= i < p ==> key_lt(#[trigger] s@[i].0@, k@),
        decreases s@.len() - p,
    {
        match compare_keys(&s[p].0, k) {
            KeyOrder::Less => {
                p = p + 1;
            },
            KeyOrder::Equal => {
                return (p, true);
            },
            KeyOrder::Greater => {
                proof {
                    assert forall|i: int| p <= i < s@.len() implies key_lt(k@, #[trigger] s@[i].0@) by {
                        if i > p {
                            lemma_key_lt_transitive(k@, s@[p as int].0@, s@[i].0@);
                        }
                    }
                    assert(!has_key(s@, k@)) by {
                        if has_key(s@, k@) {
                            let i = choose|i: int| 0 <= i < s@.len() && s@[i].0@ == k@;
                            if i < p {
                                lemma_key_lt_irreflexive(k@);
                            } else {
                                lemma_key_lt_irreflexive(k@);
                            }
                        }
                    }
                }
                return (p, false);
            },
        }
    }
    proof {
        assert(!has_key(s@, k@)) by {
            if has_key(s@, k@) {
                let i = choose|i: int| 0 <= i < s@.len() && s@[i].0@ == k@;
                lemma_key_lt_irreflexive(k@);
            }
        }
    }
    (p, false)
}

/// The amount recorded for a key in a sorted list of pairs (0 if absent).
pub fn get_amount(s: &Vec<(String, u128)>, k: &String) -> (r: u128)
    requires
        keys_sorted(s@),
    ensures
        r == lookup(s@, k@),
{
    let (p, found) = find_key(s, k);
    if found {
        proof {
            lemma_lookup_at(s@, p as int);
        }
        s[p].1
    } else {
        proof {
            lemma_lookup_absent(s@, k@);
        }
        0
    }
}

/// Records `v` as the amount of key `k`, keeping the keys sorted.
pub fn set_amount(s: &mut Vec<(String, u128)>, k: String, v: u128)
    requires
        keys_sorted(old(s)@),
    ensures
        keys_sorted(final(s)@),
        forall|key: Seq<char>| #[trigger] lookup(final(s)@, key) == if key == k@ {
            v as int
        } else {
            lookup(old(s)@, key)
        },
        forall|key: Seq<char>| has_key(final(s)@, key) <==> (has_key(old(s)@, key) || key == k@),
        pair_total(final(s)@) == pair_total(old(s)@) - lookup(old(s)@, k@) + v,
{
    let ghost old_s = s@;
    let (p, found) = find_key(s, &k);
    if found {
        let ghost kk = k;
        s.set(p, (k, v));
        proof {
            assert(s@ == old_s.update(p as int, (kk, v)));
            lemma_lookup_at(old_s, p as int);
            assert(pair_amounts(s@) =~= pair_amounts(old_s).update(p as int, v as int));
            lemma_sum_update(pair_amounts(old_s), p as int, v as int);
            assert forall|key: Seq<char>| #[trigger] lookup(s@, key) == if key == k@ {
                v as int
            } else {
                lookup(old_s, key)
            } by {
                lemma_lookup_update(old_s, p as int, kk, v, key);
            }
            assert forall|i: int, j: int| 0 <= i < j < s@.len() implies key_lt(s@[i].0@, s@[j].0@) by {
                assert(old_s[p as int].0@ == k@);
            }
            assert forall|key: Seq<char>| has_key(s@, key) <==> (has_key(old_s, key) || key == k@) by {
                if has_key(old_s, key) {
                    let i = choose|i: int| 0 <= i < old_s.len() && old_s[i].0@ == key;
                    assert(s@[i].0@ == key);
                }
                if has_key(s@, key) {
                    let i = choose|i: int| 0 <= i < s@.len() && s@[i].0@ == key;
                    assert(old_s[i].0@ == key);
                }
            }
        }
    } else {
        let ghost kk = k;
        s.insert(p, (k, v));
        proof {
            lemma_lookup_absent(old_s, kk@);
            assert(pair_amounts(s@) =~= pair_amounts(old_s).insert(p as int, v as int));
            lemma_sum_insert(pair_amounts(old_s), p as int, v as int);
            assert forall|key: Seq<char>| #[trigger] lookup(s@, key) == if key == kk@ {
                v as int
            } else {
                lookup(old_s, key)
            } by {
                lemma_lookup_insert(old_s, p as int, kk, v, key);
            }
            assert forall|i: int, j: int| 0 <= i < j < s@.len() implies key_lt(s@[i].0@, s@[j].0@) by {
                if i < p && j == p {
                } else if i < p && j > p {
                    assert(s@[j] == old_s[j - 1]);
                    lemma_key_lt_transitive(old_s[i].0@, kk@, old_s[j - 1].0@);
                } else if i == p {
                    assert(s@[j] == old_s[j - 1]);
                } else if i > p {
                    assert(s@[i] == old_s[i - 1]);
                    assert(s@[j] == old_s[j - 1]);
                } else {
                    assert(s@[i] == old_s[i]);
                    assert(s@[j] == old_s[j]);
                }
            }
            assert forall|key: Seq<char>| has_key(s@, key) <==> (has_key(old_s, key) || key == kk@) by {
                if has_key(old_s, key) {
                    let i = choose|i: int| 0 <= i < old_s.len() && old_s[i].0@ == key;
                    if i < p {
                        assert(s@[i] == old_s[i]);
                    } else {
                        assert(s@[i + 1] == old_s[i]);
                    }
                }
                if key == kk@ {
                    assert(s@[p as int].0@ == key);
                }
                if has_key(s@, key) {
                    let i = choose|i: int| 0 <= i < s@.len() && s@[i].0@ == key;
                    if i < p {
                        assert(s@[i] == old_s[i]);
                    } else if i > p {
                        assert(s@[i] == old_s[i - 1]);
                    }
                }
            }
        }
    }
}

/// The pairs with a nonzero amount, in the same order.
pub fn drop_zero_amounts(s: &Vec<(String, u128)>) -> (r: Vec<(String, u128)>)
    requires
        keys_sorted(s@),
    ensures
        keys_sorted(r@),
        forall|i: int| 0 <= i < r@.len() ==> (#[trigger] r@[i]).1 > 0,
        forall|k: Seq<char>| #[trigger] lookup(r@, k) == lookup(s@, k),
        pair_total(r@) == pair_total(s@),
{
    let mut r: Vec<(String, u128)> = Vec::new();
    let mut i: usize = 0;
    while i < s.len()
        invariant
            i <= s.len(),
            keys_sorted(s@),
            keys_sorted(r@),
            forall|a: int|
                0 <= a < r@.len() ==> exists|x: int| 0 <= x < i && (#[trigger] r@[a]).0@ == s@[x].0@,
            forall|a: int| 0 <= a < r@.len() ==> (#[trigger] r@[a]).1 > 0,
            forall|k: Seq<char>| #[trigger] lookup(r@, k) == lookup(s@.take(i as int), k),
            pair_total(r@) == pair_total(s@.take(i as int)),
        decreases s.len() - i,
    {
        let ghost before = r@;
        proof {
            assert(s@.take(i + 1).drop_last() =~= s@.take(i as int));
            assert(!has_key(before, s@[i as int].0@)) by {
                if has_key(before, s@[i as int].0@) {
                    let a = choose|a: int| 0 <= a < before.len() && before[a].0@ == s@[i as int].0@;
                    let x = choose|x: int| 0 <= x < i && before[a].0@ == s@[x].0@;
                    crate::keys::lemma_key_lt_ne(s@[x].0@, s@[i as int].0@);
                }
            }
            crate::keys::lemma_lookup_absent(before, s@[i as int].0@);
        }
        proof {
            assert(pair_amounts(s@.take(i + 1)) =~= pair_amounts(s@.take(i as int)).push(s@[i as int].1 as int));
            lemma_sum_push(pair_amounts(s@.take(i as int)), s@[i as int].1 as int);
        }
        if s[i].1 != 0 {
            r.push((s[i].0.clone(), s[i].1));
            proof {
                lemma_pair_total_push(before, r@.last());
                assert(r@ =~= before.push(r@.last()));
                assert(r@.drop_last() =~= before);
                assert forall|a: int, c: int| 0 <= a < c < r@.len() implies key_lt(r@[a].0@, r@[c].0@) by {
                    if c == before.len() {
                        let x = choose|x: int| 0 <= x < i && before[a].0@ == s@[x].0@;
                        assert(r@[a] == before[a]);
                    } else {
                        assert(r@[a] == before[a]);
                        assert(r@[c] == before[c]);
                    }
                }
            }
        }
        proof {
            assert forall|a: int|
                0 <= a < r@.len() implies exists|x: int| 0 <= x < i + 1 && (#[trigger] r@[a]).0@ == s@[x].0@ by {
                if a < before.len() {
                    let x = choose|x: int| 0 <= x < i && before[a].0@ == s@[x].0@;
                    assert(r@[a] == before[a]);
                } else {
                    assert(r@[a].0@ == s@[i as int].0@);
                }
            }
            assert forall|k: Seq<char>| #[trigger] lookup(r@, k) == lookup(s@.take(i + 1), k) by {
                assert(s@.take(i + 1).last() == s@[i as int]);
                assert(lookup(s@.take(i + 1), k) == if s@[i as int].0@ == k {
                    s@[i as int].1 as int
                } else {
                    lookup(s@.take(i as int), k)
                });
                assert(lookup(before, k) == lookup(s@.take(i as int), k));
                if r@.len() > before.len() {
                    assert(r@.drop_last() =~= before);
                    assert(r@.last().0@ == s@[i as int].0@);
                    assert(r@.last().1 == s@[i as int].1);
                    assert(lookup(r@, k) == if r@.last().0@ == k {
                        r@.last().1 as int
                    } else {
                        lookup(r@.drop_last(), k)
                    });
                } else {
                    assert(r@ == before);
                }
            }
        }
        i = i + 1;
    }
    proof {
        assert(s@.take(s@.len() as int) =~= s@);
    }
    r
}


/// The sum of the amounts of a list of pairs.
pub fn total_amount(s: &Vec<(String, u128)>) -> (r: u128)
    requires
        pair_total(s@) <= u128::MAX,
    ensures
        r == pair_total(s@),
{
    let mut acc: u128 = 0;
    let mut i: usize = 0;
    proof {
        lemma_pair_total_nonneg(s@);
    }
    while i < s.len()
        invariant
            i <= s.len(),
            all_nonneg(pair_amounts(s@)),
            pair_total(s@) <= u128::MAX,
            acc == sum(pair_amounts(s@).take(i as int)),
        decreases s.len() - i,
    {
        proof {
            crate::seqsum::lemma_sum_take_step(pair_amounts(s@), i as int);
            crate::seqsum::lemma_sum_prefix_le(pair_amounts(s@), i + 1);
        }
        acc = acc + s[i].1;
        i = i + 1;
    }
    proof {
        crate::seqsum::lemma_sum_take_all(pair_amounts(s@));
    }
    acc
}

} // verus!
