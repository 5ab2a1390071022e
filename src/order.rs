//! Ordering of directory entries: a sort key, its total preorder, and a
//! stable sort of entry indices by key.
use vstd::prelude::*;

verus! {

/// Lexicographic order on byte strings, the order of `str` comparison in
/// Rust: the first differing byte decides, and a proper prefix comes first.
pub open spec fn bytes_le(a: Seq<u8>, b: Seq<u8>) -> bool
    decreases a.len(),
{
    if a.len() == 0 {
        true
    } else if b.len() == 0 {
        false
    } else if a[0] != b[0] {
        a[0] < b[0]
    } else {
        bytes_le(a.drop_first(), b.drop_first())
    }
}

/// Any two byte strings are comparable.
pub proof fn lemma_bytes_le_total(a: Seq<u8>, b: Seq<u8>)
    ensures
        bytes_le(a, b) || bytes_le(b, a),
    decreases a.len(),
{
    if a.len() > 0 && b.len() > 0 && a[0] == b[0] {
        lemma_bytes_le_total(a.drop_first(), b.drop_first());
    }
}

/// The byte-string order is transitive.
pub proof fn lemma_bytes_le_trans(a: Seq<u8>, b: Seq<u8>, c: Seq<u8>)
    requires
        bytes_le(a, b),
        bytes_le(b, c),
    ensures
        bytes_le(a, c),
    decreases a.len(),
{
    if a.len() > 0 && b.len() > 0 && c.len() > 0 && a[0] == b[0] && b[0] == c[0] {
        lemma_bytes_le_trans(a.drop_first(), b.drop_first(), c.drop_first());
    }
}

/// What an entry is ordered by: a count first, then a byte string.
/// Ordering by name leaves every count at zero; ordering by lines leaves
/// every text empty.
pub struct SortKey {
    pub count: usize,
    pub text: Vec<u8>,
}

impl View for SortKey {
    type V = (nat, Seq<u8>);

    open spec fn view(&self) -> (nat, Seq<u8>) {
        (self.count as nat, self.text@)
    }
}

/// The views of a sequence of keys.
pub open spec fn key_views(keys: Seq<SortKey>) -> Seq<(nat, Seq<u8>)> {
    Seq::new(keys.len(), |i: int| keys[i]@)
}

/// The preorder on keys: by count, then by text.
pub open spec fn key_le(a: (nat, Seq<u8>), b: (nat, Seq<u8>)) -> bool {
    a.0 < b.0 || (a.0 == b.0 && bytes_le(a.1, b.1))
}

/// Any two keys are comparable.
pub proof fn lemma_key_le_total(a: (nat, Seq<u8>), b: (nat, Seq<u8>))
    ensures
        key_le(a, b) || key_le(b, a),
{
    lemma_bytes_le_total(a.1, b.1);
}

/// The key order is transitive.
pub proof fn lemma_key_le_trans(a: (nat, Seq<u8>), b: (nat, Seq<u8>), c: (nat, Seq<u8>))
    requires
        key_le(a, b),
        key_le(b, c),
    ensures
        key_le(a, c),
{
    if a.0 == b.0 && b.0 == c.0 {
        lemma_bytes_le_trans(a.1, b.1, c.1);
    }
}

/// `order` lists each index of `keys` exactly once.
pub open spec fn is_index_permutation(order: Seq<usize>, n: nat) -> bool {
    &&& order.len() == n
    &&& forall|i: int| 0 <= i < order.len() ==> order[i] < n
    &&& forall|i: int, j: int| 0 <= i < j < order.len() ==> order[i] != order[j]
}

/// `order` visits the keys in ascending order.
pub open spec fn visits_ascending(keys: Seq<(nat, Seq<u8>)>, order: Seq<usize>) -> bool {
    forall|i: int, j: int|
        0 <= i < j < order.len() ==> key_le(#[trigger] keys[order[i] as int], #[trigger] keys[order[j] as int])
}

/// Entries of equal keys keep their relative order.
pub open spec fn keeps_ties(keys: Seq<(nat, Seq<u8>)>, order: Seq<usize>) -> bool {
    forall|i: int, j: int|
        0 <= i < j < order.len() && key_le(#[trigger] keys[order[j] as int], #[trigger] keys[order[i] as int])
            ==> order[i] < order[j]
}

/// `order` is the stable ascending order of `keys`.
pub open spec fn stably_sorted(keys: Seq<(nat, Seq<u8>)>, order: Seq<usize>) -> bool {
    &&& is_index_permutation(order, keys.len())
    &&& visits_ascending(keys, order)
    &&& keeps_ties(keys, order)
}

/// Byte-wise comparison of two byte strings.
pub fn bytes_leq(a: &Vec<u8>, b: &Vec<u8>) -> (r: bool)
    ensures
        r == bytes_le(a@, b@),
{
    let mut i: usize = 0;
    assert(a@.subrange(0, a@.len() as int) =~= a@);
    assert(b@.subrange(0, b@.len() as int) =~= b@);
    while i < a.len() && i < b.len() && a[i] == b[i]
        invariant
            i <= a@.len(),
            i <= b@.len(),
            bytes_le(a@, b@) == bytes_le(a@.subrange(i as int, a@.len() as int), b@.subrange(i as int, b@.len() as int)),
        decreases a@.len() - i,
    {
        assert(a@.subrange(i as int, a@.len() as int).drop_first() =~= a@.subrange(i as int + 1, a@.len() as int));
        assert(b@.subrange(i as int, b@.len() as int).drop_first() =~= b@.subrange(i as int + 1, b@.len() as int));
        i = i + 1;
    }
    if i == a.len() {
        true
    } else if i == b.len() {
        false
    } else {
        a[i] < b[i]
    }
}

/// Compares two keys.
pub fn key_leq(a: &SortKey, b: &SortKey) -> (r: bool)
    ensures
        r == key_le(a@, b@),
{
    if a.count < b.count {
        true
    } else if a.count == b.count {
        bytes_leq(&a.text, &b.text)
    } else {
        false
    }
}

/// The indices of `keys` in stable ascending order of key: keys that compare
/// equal keep the order in which they stand in `keys`.
pub fn stable_order(keys: &Vec<SortKey>) -> (order: Vec<usize>)
    ensures
        stably_sorted(key_views(keys@), order@),
{
    let ghost ks = key_views(keys@);
    let n = keys.len();
    let mut order: Vec<usize> = Vec::new();
    let mut i: usize = 0;
    while i < n
        invariant
            n == keys@.len(),
            ks == key_views(keys@),
            i <= n,
            is_index_permutation(order@, i as nat),
            visits_ascending(ks, order@),
            keeps_ties(ks, order@),
        decreases n - i,
    {
        let mut j: usize = order.len();
        while j > 0 && !key_leq(&keys[order[j - 1]], &keys[i])
            invariant
                n == keys@.len(),
                ks == key_views(keys@),
                i < n,
                j <= order@.len(),
                is_index_permutation(order@, i as nat),
                forall|k: int| j <= k < order@.len() ==> !key_le(#[trigger] ks[order@[k] as int], ks[i as int]),
            decreases j,
        {
            j = j - 1;
        }
        proof {
            let o = order@;
            let ki = ks[i as int];
            assert forall|k: int| j <= k < o.len() implies key_le(ki, #[trigger] ks[o[k] as int]) by {
                lemma_key_le_total(ki, ks[o[k] as int]);
            }
            assert forall|k: int| 0 <= k < j implies key_le(#[trigger] ks[o[k] as int], ki) by {
                if k < j - 1 {
                    lemma_key_le_trans(ks[o[k] as int], ks[o[j - 1] as int], ki);
                }
            }
        }
        let ghost old_order = order@;
        order.insert(j, i);
        proof {
            let o = order@;
            let ki = ks[i as int];
            assert(o == old_order.insert(j as int, i));
            assert forall|a: int, b: int| 0 <= a < b < o.len() implies key_le(#[trigger] ks[o[a] as int], #[trigger] ks[o[b] as int]) by {
                if b == j {
                } else if a == j {
                } else if a < j && b > j {
                    lemma_key_le_trans(ks[o[a] as int], ki, ks[o[b] as int]);
                } else {
                }
            }
            assert forall|a: int, b: int| 0 <= a < b < o.len() && key_le(#[trigger] ks[o[b] as int], #[trigger] ks[o[a] as int])
                implies o[a] < o[b] by {
                if a == j {
                    assert(!key_le(ks[old_order[b - 1] as int], ki));
                }
            }
        }
        i = i + 1;
    }
    order
}

} // verus!
