//! Struct packing: how the members of a struct fill 32-byte storage slots,
//! and a reordering of the members that packs them tighter.
use vstd::prelude::*;
use crate::findings::is_permutation;

verus! {

/// Bytes in one storage slot.
pub const SLOT_BYTES: usize = 32;

/// Sum of a sequence of byte counts.
pub open spec fn seq_sum(s: Seq<usize>) -> int
    decreases s.len(),
{
    if s.len() == 0 {
        0
    } else {
        seq_sum(s.drop_last()) + s.last()
    }
}

/// The slots filled so far and the slot being filled, after the first `k`
/// members: a member joins the current slot while the slot stays within 32
/// bytes, and otherwise closes it and opens the next one.
pub open spec fn slots_after(sizes: Seq<usize>, k: int) -> (Seq<Seq<usize>>, Seq<usize>)
    decreases k,
{
    if k <= 0 {
        (seq![], seq![])
    } else {
        let prev = slots_after(sizes, k - 1);
        let b = sizes[k - 1];
        if seq_sum(prev.1) + b <= SLOT_BYTES {
            (prev.0, prev.1.push(b))
        } else {
            (prev.0.push(prev.1), seq![b])
        }
    }
}

/// The member sizes grouped slot by slot, as Solidity lays out adjacent
/// members: no groups for no members, else the closed slots and the last one.
pub open spec fn struct_slots(sizes: Seq<usize>) -> Seq<Seq<usize>> {
    if sizes.len() == 0 {
        seq![]
    } else {
        let st = slots_after(sizes, sizes.len() as int);
        st.0.push(st.1)
    }
}

proof fn lemma_sum_push(s: Seq<usize>, b: usize)
    ensures
        seq_sum(s.push(b)) == seq_sum(s) + b,
        seq_sum(seq![b]) == b,
{
    assert(s.push(b).drop_last() =~= s);
    assert(seq![b].drop_last() =~= Seq::<usize>::empty());
    assert(seq_sum(Seq::<usize>::empty()) == 0);
}

proof fn lemma_slot_sum_bound(sizes: Seq<usize>, k: int)
    requires
        0 <= k <= sizes.len(),
    ensures
        seq_sum(slots_after(sizes, k).1) <= SLOT_BYTES || (slots_after(sizes, k).1.len() == 1
            && seq_sum(slots_after(sizes, k).1) == slots_after(sizes, k).1[0]),
        k > 0 ==> slots_after(sizes, k).1.len() > 0,
    decreases k,
{
    if k > 0 {
        lemma_slot_sum_bound(sizes, k - 1);
        let prev = slots_after(sizes, k - 1);
        let b = sizes[k - 1];
        lemma_sum_push(prev.1, b);
    }
}

/// The slots laid end to end.
pub open spec fn flatten_slots(g: Seq<Seq<usize>>) -> Seq<usize>
    decreases g.len(),
{
    if g.len() == 0 {
        seq![]
    } else {
        flatten_slots(g.drop_last()) + g.last()
    }
}

proof fn lemma_slots_after_cover(sizes: Seq<usize>, k: int)
    requires
        0 <= k <= sizes.len(),
    ensures
        flatten_slots(slots_after(sizes, k).0) + slots_after(sizes, k).1 == sizes.subrange(0, k),
        forall|j: int|
            0 <= j < slots_after(sizes, k).0.len() ==> seq_sum(#[trigger] slots_after(sizes, k).0[j])
                <= SLOT_BYTES || slots_after(sizes, k).0[j].len() == 1,
    decreases k,
{
    if k > 0 {
        lemma_slots_after_cover(sizes, k - 1);
        lemma_slot_sum_bound(sizes, k - 1);
        let prev = slots_after(sizes, k - 1);
        let b = sizes[k - 1];
        assert(sizes.subrange(0, k) =~= sizes.subrange(0, k - 1).push(b));
        if seq_sum(prev.1) + b <= SLOT_BYTES {
            assert(flatten_slots(prev.0) + prev.1.push(b) =~= (flatten_slots(prev.0) + prev.1).push(b));
        } else {
            let g = prev.0.push(prev.1);
            assert(g.drop_last() =~= prev.0);
            assert(flatten_slots(g) + seq![b] =~= (flatten_slots(prev.0) + prev.1).push(b));
            assert forall|j: int| 0 <= j < g.len() implies seq_sum(#[trigger] g[j]) <= SLOT_BYTES
                || g[j].len() == 1 by {
                if j < prev.0.len() {
                    assert(g[j] == prev.0[j]);
                }
            }
        }
    }
}

/// Grouping into slots loses and reorders nothing: the slots laid end to end
/// are the member sizes, and each slot fits in 32 bytes unless it holds a
/// single larger member.
pub proof fn lemma_struct_slots_cover(sizes: Seq<usize>)
    ensures
        flatten_slots(struct_slots(sizes)) == sizes,
        forall|j: int|
            0 <= j < struct_slots(sizes).len() ==> seq_sum(#[trigger] struct_slots(sizes)[j])
                <= SLOT_BYTES || struct_slots(sizes)[j].len() == 1,
{
    if sizes.len() > 0 {
        let n = sizes.len() as int;
        lemma_slots_after_cover(sizes, n);
        lemma_slot_sum_bound(sizes, n);
        let st = slots_after(sizes, n);
        let g = st.0.push(st.1);
        assert(g.drop_last() =~= st.0);
        assert(sizes.subrange(0, n) =~= sizes);
        assert forall|j: int| 0 <= j < g.len() implies seq_sum(#[trigger] g[j]) <= SLOT_BYTES
            || g[j].len() == 1 by {
            if j < st.0.len() {
                assert(g[j] == st.0[j]);
            }
        }
    }
}

/// Groups the sizes of a struct's members, in member order, into the storage
/// slots they occupy.
pub fn extract_struct_bytes(member_sizes: &[usize]) -> (r: Vec<Vec<usize>>)
    ensures
        r@.map_values(|g: Vec<usize>| g@) == struct_slots(member_sizes@),
{
    let mut struct_bytes: Vec<Vec<usize>> = Vec::new();
    let mut local_bytes: Vec<usize> = Vec::new();
    let mut local_sum: usize = 0;
    let n = member_sizes.len();
    let mut i: usize = 0;
    while i < n
        invariant
            n == member_sizes@.len(),
            i <= n,
            struct_bytes@.map_values(|g: Vec<usize>| g@) == slots_after(member_sizes@, i as int).0,
            local_bytes@ == slots_after(member_sizes@, i as int).1,
            local_sum == seq_sum(local_bytes@),
            n > 0 ==> i < n,
        decreases n - i,
    {
        let b = member_sizes[i];
        proof {
            lemma_slot_sum_bound(member_sizes@, i as int);
            assert(slots_after(member_sizes@, i + 1) == {
                let prev = slots_after(member_sizes@, i as int);
                if seq_sum(prev.1) + b <= SLOT_BYTES {
                    (prev.0, prev.1.push(b))
                } else {
                    (prev.0.push(prev.1), seq![b])
                }
            });
        }
        proof {
            lemma_sum_push(local_bytes@, b);
        }
        let ghost before = struct_bytes@;
        if b <= SLOT_BYTES && local_sum <= SLOT_BYTES - b {
            local_bytes.push(b);
            local_sum = local_sum + b;
            proof {
                assert(local_bytes@.drop_last() =~= slots_after(member_sizes@, i as int).1);
            }
        } else {
            let closed = local_bytes;
            struct_bytes.push(closed);
            local_bytes = Vec::new();
            local_bytes.push(b);
            local_sum = b;
            proof {
                assert(struct_bytes@.map_values(|g: Vec<usize>| g@) =~= before.map_values(
                    |g: Vec<usize>| g@,
                ).push(closed@));
                assert(local_bytes@ =~= seq![b]);
                assert(local_bytes@.drop_last() =~= Seq::<usize>::empty());
            }
        }
        if i + 1 == n && local_bytes.len() > 0 {
            let ghost mid = struct_bytes@;
            let last = local_bytes;
            struct_bytes.push(last);
            local_bytes = Vec::new();
            proof {
                assert(struct_bytes@.map_values(|g: Vec<usize>| g@) =~= mid.map_values(
                    |g: Vec<usize>| g@,
                ).push(last@));
            }
            i = i + 1;
            proof {
                assert(struct_bytes@.map_values(|g: Vec<usize>| g@) == struct_slots(member_sizes@));
            }
            return struct_bytes;
        }
        i = i + 1;
    }
    proof {
        assert(member_sizes@.len() == 0);
        assert(struct_bytes@.map_values(|g: Vec<usize>| g@) =~= Seq::<Seq<usize>>::empty());
    }
    struct_bytes
}


/// A member of a struct declaration.
pub struct StructMember {
    pub name: String,
    /// The member's type as the compiler describes it, where it gives one.
    pub type_string: Option<String>,
}

/// A struct declaration: its name and its members in declaration order.
pub struct StructDefinition {
    pub name: String,
    pub members: Vec<StructMember>,
}

impl StructMember {
    /// An equal copy of this member.
    pub fn duplicate(&self) -> (r: StructMember)
        ensures
            r == *self,
    {
        let type_string = match &self.type_string {
            Some(t) => Some(t.clone()),
            None => None,
        };
        StructMember { name: self.name.clone(), type_string }
    }
}

/// Equal copies of the members, in order.
fn copy_members(v: &Vec<StructMember>) -> (r: Vec<StructMember>)
    ensures
        r@ == v@,
{
    let mut r: Vec<StructMember> = Vec::new();
    let mut i: usize = 0;
    while i < v.len()
        invariant
            i <= v@.len(),
            r@ == v@.subrange(0, i as int),
        decreases v@.len() - i,
    {
        r.push(v[i].duplicate());
        i = i + 1;
        proof {
            assert(r@ =~= v@.subrange(0, i as int));
        }
    }
    proof {
        assert(v@.subrange(0, v@.len() as int) =~= v@);
    }
    r
}

/// The index of the first `x` in `s` at or after `j`, or the length of `s`
/// when there is none.
pub open spec fn first_index_from(s: Seq<usize>, x: usize, j: int) -> int
    decreases s.len() - j,
{
    if j < 0 || j >= s.len() {
        s.len() as int
    } else if s[j] == x {
        j
    } else {
        first_index_from(s, x, j + 1)
    }
}

proof fn lemma_first_index_from(s: Seq<usize>, x: usize, j: int)
    requires
        0 <= j <= s.len(),
    ensures
        j <= first_index_from(s, x, j) <= s.len(),
        first_index_from(s, x, j) < s.len() ==> s[first_index_from(s, x, j)] == x,
        forall|k: int| j <= k < first_index_from(s, x, j) ==> #[trigger] s[k] != x,
    decreases s.len() - j,
{
    if j < s.len() && s[j] != x {
        lemma_first_index_from(s, x, j + 1);
    }
}

/// `s` with the entries at `i` and `j` exchanged.
pub open spec fn swap_at<T>(s: Seq<T>, i: int, j: int) -> Seq<T> {
    s.update(i, s[j]).update(j, s[i])
}

proof fn lemma_swap_multiset(s: Seq<usize>, i: int, j: int)
    requires
        0 <= i < s.len(),
        0 <= j < s.len(),
    ensures
        swap_at(s, i, j).to_multiset() == s.to_multiset(),
{
    broadcast use vstd::seq_lib::group_to_multiset_ensures;
    broadcast use vstd::multiset::group_multiset_axioms;

    let s1 = s.update(i, s[j]);
    assert(s1[j] == s[j]);
    assert(s1.to_multiset() == s.to_multiset().insert(s[j]).remove(s[i]));
    assert(swap_at(s, i, j).to_multiset() == s1.to_multiset().insert(s[i]).remove(s[j]));
    assert(swap_at(s, i, j).to_multiset() =~= s.to_multiset());
}

/// Exchanges the entries at `i` and `j`.
fn swap_entries<T>(v: &mut Vec<T>, i: usize, j: usize)
    requires
        i < old(v)@.len(),
        j < old(v)@.len(),
    ensures
        final(v)@ == swap_at(old(v)@, i as int, j as int),
{
    let ghost s = v@;
    if i < j {
        let b = v.remove(j);
        let a = v.remove(i);
        v.insert(i, b);
        v.insert(j, a);
        assert(v@ =~= swap_at(s, i as int, j as int));
    } else if j < i {
        let a = v.remove(i);
        let b = v.remove(j);
        v.insert(j, a);
        v.insert(i, b);
        assert(v@ =~= swap_at(s, i as int, j as int));
    } else {
        assert(s =~= swap_at(s, i as int, j as int));
    }
}

/// Whether two size lists are equal.
fn sizes_equal(a: &Vec<usize>, b: &Vec<usize>) -> (r: bool)
    ensures
        r == (a@ == b@),
{
    if a.len() != b.len() {
        return false;
    }
    let mut i: usize = 0;
    while i < a.len()
        invariant
            a@.len() == b@.len(),
            i <= a@.len(),
            forall|k: int| 0 <= k < i ==> a@[k] == b@[k],
        decreases a@.len() - i,
    {
        if a[i] != b[i] {
            return false;
        }
        i = i + 1;
    }
    assert(a@ =~= b@);
    true
}

/// One step of a reordering pass at index `i`: where the size there differs
/// from the tight one, it is exchanged, member and all, with the index of
/// the first tight size equal to it.
pub open spec fn pack_step<T>(loose: Seq<usize>, tight: Seq<usize>, members: Seq<T>, i: int) -> (
    Seq<usize>,
    Seq<T>,
) {
    let j = first_index_from(tight, loose[i], 0);
    if loose[i] != tight[i] && j < loose.len() {
        (swap_at(loose, i, j), swap_at(members, i, j))
    } else {
        (loose, members)
    }
}

/// The steps of a pass from index `i` up to `n`.
pub open spec fn pack_pass_from<T>(
    loose: Seq<usize>,
    tight: Seq<usize>,
    members: Seq<T>,
    i: int,
    n: int,
) -> (Seq<usize>, Seq<T>)
    decreases n - i,
{
    if i >= n {
        (loose, members)
    } else {
        let st = pack_step(loose, tight, members, i);
        pack_pass_from(st.0, tight, st.1, i + 1, n)
    }
}

/// One pass over every index of the loose sizes.
pub open spec fn pack_pass<T>(loose: Seq<usize>, tight: Seq<usize>, members: Seq<T>) -> (
    Seq<usize>,
    Seq<T>,
) {
    pack_pass_from(loose, tight, members, 0, loose.len() as int)
}

/// The sizes and members after `k` passes.
pub open spec fn repack<T>(loose: Seq<usize>, tight: Seq<usize>, members: Seq<T>, k: nat) -> (
    Seq<usize>,
    Seq<T>,
)
    decreases k,
{
    if k == 0 {
        (loose, members)
    } else {
        let prev = repack(loose, tight, members, (k - 1) as nat);
        pack_pass(prev.0, tight, prev.1)
    }
}

/// `k` is the first number of passes after which the sizes are the tight ones.
pub open spec fn packing_settles<T>(loose: Seq<usize>, tight: Seq<usize>, members: Seq<T>, k: nat) -> bool {
    &&& repack(loose, tight, members, k).0 == tight
    &&& forall|j: nat| j < k ==> #[trigger] repack(loose, tight, members, j).0 != tight
}

proof fn lemma_least_settling<T>(loose: Seq<usize>, tight: Seq<usize>, members: Seq<T>, k: nat) -> (r: nat)
    requires
        repack(loose, tight, members, k).0 == tight,
    ensures
        packing_settles(loose, tight, members, r),
        r <= k,
    decreases k,
{
    if exists|j: nat| j < k && #[trigger] repack(loose, tight, members, j).0 == tight {
        let j = choose|j: nat| j < k && #[trigger] repack(loose, tight, members, j).0 == tight;
        lemma_least_settling(loose, tight, members, j)
    } else {
        k
    }
}

/// The indices at which two size lists agree.
pub open spec fn matched(l: Seq<usize>, t: Seq<usize>) -> Set<int> {
    Set::new(|k: int| 0 <= k < l.len() && l[k] == t[k])
}

proof fn lemma_matched_bound(l: Seq<usize>, t: Seq<usize>)
    ensures
        matched(l, t).finite(),
        matched(l, t).len() <= l.len(),
{
    vstd::set_lib::lemma_int_range(0, l.len() as int);
    vstd::set_lib::lemma_len_subset(matched(l, t), vstd::set_lib::set_int_range(0, l.len() as int));
}

/// A step either leaves the sizes as they are or puts one more size in its
/// tight place, displacing none that was in place.
proof fn lemma_step_progress<T>(l: Seq<usize>, t: Seq<usize>, m: Seq<T>, i: int)
    requires
        0 <= i < l.len(),
        l.len() == t.len(),
    ensures
        pack_step(l, t, m, i).0.len() == l.len(),
        matched(l, t).subset_of(matched(pack_step(l, t, m, i).0, t)),
        pack_step(l, t, m, i).0 == l || matched(l, t).len() < matched(pack_step(l, t, m, i).0, t).len(),
{
    let j = first_index_from(t, l[i], 0);
    lemma_first_index_from(t, l[i], 0);
    let l2 = pack_step(l, t, m, i).0;
    if l[i] != t[i] && j < l.len() {
        if l[j] == l[i] {
            assert(l2 =~= l);
        } else {
            assert forall|k: int| matched(l, t).contains(k) implies matched(l2, t).contains(k) by {
                assert(k != i && k != j);
            }
            lemma_matched_bound(l, t);
            lemma_matched_bound(l2, t);
            assert(matched(l, t).insert(j).subset_of(matched(l2, t)));
            vstd::set_lib::lemma_len_subset(matched(l, t).insert(j), matched(l2, t));
        }
    }
}

/// The steps of a pass from `i` on either leave the sizes as they are or put
/// more sizes in their tight places; the members do not affect the sizes.
proof fn lemma_pass_progress<T>(l: Seq<usize>, t: Seq<usize>, m: Seq<T>, m2: Seq<T>, i: int, n: int)
    requires
        0 <= i,
        n == l.len(),
        l.len() == t.len(),
    ensures
        pack_pass_from(l, t, m, i, n).0 == pack_pass_from(l, t, m2, i, n).0,
        pack_pass_from(l, t, m, i, n).0.len() == n,
        pack_pass_from(l, t, m, i, n).0 == l || matched(l, t).len() < matched(
            pack_pass_from(l, t, m, i, n).0,
            t,
        ).len(),
        matched(l, t).len() <= matched(pack_pass_from(l, t, m, i, n).0, t).len(),
    decreases n - i,
{
    if i < n {
        lemma_step_progress(l, t, m, i);
        let st = pack_step(l, t, m, i);
        let st2 = pack_step(l, t, m2, i);
        assert(st.0 == st2.0);
        lemma_pass_progress(st.0, t, st.1, st2.1, i + 1, n);
        lemma_matched_bound(l, t);
        lemma_matched_bound(st.0, t);
        vstd::set_lib::lemma_len_subset(matched(l, t), matched(st.0, t));
    }
}

/// Once a pass leaves the sizes as they are, every later pass does too.
proof fn lemma_stuck<T>(l0: Seq<usize>, t: Seq<usize>, m0: Seq<T>, c: nat, j: nat)
    requires
        c <= j,
        l0.len() == t.len(),
        repack(l0, t, m0, c + 1).0 == repack(l0, t, m0, c).0,
    ensures
        repack(l0, t, m0, j).0 == repack(l0, t, m0, c).0,
    decreases j - c,
{
    if j > c {
        lemma_stuck(l0, t, m0, c, (j - 1) as nat);
        lemma_repack_len(l0, t, m0, c);
        let a = repack(l0, t, m0, c);
        let b = repack(l0, t, m0, (j - 1) as nat);
        lemma_pass_progress(a.0, t, a.1, b.1, 0, a.0.len() as int);
    }
}

proof fn lemma_repack_len<T>(l0: Seq<usize>, t: Seq<usize>, m0: Seq<T>, k: nat)
    requires
        l0.len() == t.len(),
    ensures
        repack(l0, t, m0, k).0.len() == l0.len(),
    decreases k,
{
    if k > 0 {
        lemma_repack_len(l0, t, m0, (k - 1) as nat);
        let a = repack(l0, t, m0, (k - 1) as nat);
        lemma_pass_progress(a.0, t, a.1, a.1, 0, a.0.len() as int);
    }
}

/// The number of `x` in `s` is that in its first `i` entries plus that in
/// the rest.
proof fn lemma_count_split(s: Seq<usize>, i: int, x: usize)
    requires
        0 <= i <= s.len(),
    ensures
        s.to_multiset().count(x) == s.subrange(0, i).to_multiset().count(x) + s.subrange(
            i,
            s.len() as int,
        ).to_multiset().count(x),
{
    broadcast use vstd::multiset::group_multiset_axioms;

    vstd::seq_lib::lemma_multiset_commutative(s.subrange(0, i), s.subrange(i, s.len() as int));
    assert(s.subrange(0, i) + s.subrange(i, s.len() as int) =~= s);
}

/// Exchanges the sizes and members at `i` and `j`, keeping track of where
/// each member came from.
fn swap_both(
    loose: &mut Vec<usize>,
    members: &mut Vec<StructMember>,
    i: usize,
    j: usize,
    Ghost(l0): Ghost<Seq<usize>>,
    Ghost(m0): Ghost<Seq<StructMember>>,
    Ghost(p): Ghost<Seq<int>>,
) -> (q: Ghost<Seq<int>>)
    requires
        i < old(loose)@.len(),
        j < old(loose)@.len(),
        old(loose)@.len() <= old(members)@.len(),
        old(members)@.len() == m0.len(),
        is_permutation(p, m0.len() as int),
        forall|k: int| 0 <= k < m0.len() ==> old(members)@[k] == m0[#[trigger] p[k]],
        forall|k: int|
            0 <= k < old(loose)@.len() ==> #[trigger] p[k] < old(loose)@.len() && old(loose)@[k]
                == l0[p[k]],
    ensures
        final(loose)@ == swap_at(old(loose)@, i as int, j as int),
        final(members)@ == swap_at(old(members)@, i as int, j as int),
        final(loose)@.to_multiset() == old(loose)@.to_multiset(),
        is_permutation(q@, m0.len() as int),
        forall|k: int| 0 <= k < m0.len() ==> final(members)@[k] == m0[#[trigger] q@[k]],
        forall|k: int|
            0 <= k < final(loose)@.len() ==> #[trigger] q@[k] < final(loose)@.len()
                && final(loose)@[k] == l0[q@[k]],
{
    let ghost cur = loose@;
    let ghost curm = members@;
    swap_entries(loose, i, j);
    swap_entries(members, i, j);
    let ghost q = swap_at(p, i as int, j as int);
    proof {
        lemma_swap_multiset(cur, i as int, j as int);
        assert forall|a: int, b: int| 0 <= a < b < m0.len() implies #[trigger] q[a]
            != #[trigger] q[b] by {
            if a != i && a != j && b != i && b != j {
                assert(q[a] == p[a] && q[b] == p[b]);
            }
        }
        assert forall|k: int| 0 <= k < m0.len() implies members@[k] == m0[#[trigger] q[k]] by {
            if k == i {
                assert(members@[k] == curm[j as int]);
            } else if k == j {
                assert(members@[k] == curm[i as int]);
            } else {
                assert(members@[k] == curm[k]);
            }
        }
        assert forall|k: int| 0 <= k < loose@.len() implies #[trigger] q[k] < loose@.len()
            && loose@[k] == l0[q[k]] by {
            if k == i {
                assert(loose@[k] == cur[j as int]);
            } else if k == j {
                assert(loose@[k] == cur[i as int]);
            } else {
                assert(loose@[k] == cur[k]);
            }
        }
    }
    Ghost(q)
}

/// Brings the sizes to the tight order by selection: at each index whose
/// size is out of place, the first later entry of the wanted size is moved
/// there, member and all.
fn select_into_place(
    loose: &mut Vec<usize>,
    members: &mut Vec<StructMember>,
    tight: &Vec<usize>,
    Ghost(l0): Ghost<Seq<usize>>,
    Ghost(m0): Ghost<Seq<StructMember>>,
    Ghost(p): Ghost<Seq<int>>,
) -> (q: Ghost<Seq<int>>)
    requires
        old(loose)@.len() == tight@.len(),
        old(loose)@.len() <= old(members)@.len(),
        old(members)@.len() == m0.len(),
        old(loose)@.to_multiset() == tight@.to_multiset(),
        is_permutation(p, m0.len() as int),
        forall|k: int| 0 <= k < m0.len() ==> old(members)@[k] == m0[#[trigger] p[k]],
        forall|k: int|
            0 <= k < old(loose)@.len() ==> #[trigger] p[k] < old(loose)@.len() && old(loose)@[k]
                == l0[p[k]],
    ensures
        final(loose)@ == tight@,
        final(members)@.len() == m0.len(),
        is_permutation(q@, m0.len() as int),
        forall|k: int| 0 <= k < m0.len() ==> final(members)@[k] == m0[#[trigger] q@[k]],
        forall|k: int|
            0 <= k < final(loose)@.len() ==> #[trigger] q@[k] < final(loose)@.len()
                && final(loose)@[k] == l0[q@[k]],
{
    let n = loose.len();
    let ghost mut p = p;
    let mut i: usize = 0;
    while i < n
        invariant
            n == loose@.len(),
            n == tight@.len(),
            n <= members@.len(),
            members@.len() == m0.len(),
            i <= n,
            loose@.to_multiset() == tight@.to_multiset(),
            forall|k: int| 0 <= k < i ==> loose@[k] == tight@[k],
            is_permutation(p, m0.len() as int),
            forall|k: int| 0 <= k < m0.len() ==> members@[k] == m0[#[trigger] p[k]],
            forall|k: int| 0 <= k < n ==> #[trigger] p[k] < n && loose@[k] == l0[p[k]],
        decreases n - i,
    {
        let want = tight[i];
        if loose[i] != want {
            proof {
                broadcast use vstd::seq_lib::group_to_multiset_ensures;
                let l = loose@;
                let t = tight@;
                lemma_count_split(l, i as int, want);
                lemma_count_split(t, i as int, want);
                assert(l.subrange(0, i as int) =~= t.subrange(0, i as int));
                assert(t.subrange(i as int, n as int)[0] == want);
                assert(t.subrange(i as int, n as int).contains(want));
                assert(l.subrange(i as int, n as int).to_multiset().count(want) > 0);
                assert(l.subrange(i as int, n as int).contains(want));
            }
            let mut j = i + 1;
            while j < n && loose[j] != want
                invariant
                    n == loose@.len(),
                    i < j <= n,
                    loose@[i as int] != want,
                    exists|w: int| j <= w < n && loose@[w] == want,
                decreases n - j,
            {
                proof {
                    let w = choose|w: int| j <= w < n && loose@[w] == want;
                    assert(w != j);
                }
                j = j + 1;
            }
            let ghost before = loose@;
            let q = swap_both(loose, members, i, j, Ghost(l0), Ghost(m0), Ghost(p));
            proof {
                p = q@;
                assert forall|k: int| 0 <= k <= i implies loose@[k] == tight@[k] by {
                    if k < i {
                        assert(loose@[k] == before[k]);
                    }
                }
            }
        }
        i = i + 1;
    }
    proof {
        assert(loose@ =~= tight@);
    }
    Ghost(p)
}

/// Reorders the members of `struc` so that their sizes, `loose` in member
/// order, come to the `tight` order: pass after pass, each member whose size
/// is out of place is exchanged with the place of the first tight size equal
/// to it, until the sizes are the tight ones. When a pass changes no size
/// while some are still out of place, more passes would change none either;
/// the sizes are then brought to the tight order by selection instead.
pub fn propose_better_packing(struc: &StructDefinition, loose: Vec<usize>, tight: Vec<usize>) -> (r:
    StructDefinition)
    requires
        loose@.len() == tight@.len(),
        loose@.len() <= struc.members@.len(),
        loose@.to_multiset() == tight@.to_multiset(),
    ensures
        r.name == struc.name,
        forall|k: nat|
            #[trigger] packing_settles(loose@, tight@, struc.members@, k) ==> r.members@ == repack(
                loose@,
                tight@,
                struc.members@,
                k,
            ).1,
        exists|p: Seq<int>|
            {
                &&& is_permutation(p, struc.members@.len() as int)
                &&& r.members@.len() == struc.members@.len()
                &&& forall|k: int|
                    0 <= k < r.members@.len() ==> r.members@[k] == struc.members@[#[trigger] p[k]]
                &&& forall|k: int|
                    0 <= k < loose@.len() ==> #[trigger] p[k] < loose@.len() && tight@[k]
                        == loose@[p[k]]
            },
{
    let ghost l0 = loose@;
    let ghost t = tight@;
    let ghost m0 = struc.members@;
    let ghost settles = exists|k: nat| #[trigger] repack(l0, t, m0, k).0 == t;
    let ghost mut kmin: nat = 0;
    proof {
        if settles {
            let k0 = choose|k: nat| #[trigger] repack(l0, t, m0, k).0 == t;
            kmin = lemma_least_settling(l0, t, m0, k0);
        }
    }
    let mut loose = loose;
    let mut members = copy_members(&struc.members);
    let n = loose.len();
    let ghost mut count: nat = 0;
    let ghost mut p: Seq<int> = Seq::new(m0.len(), |k: int| k);
    let mut stuck = false;
    proof {
        lemma_matched_bound(loose@, t);
    }
    while !stuck && !sizes_equal(&loose, &tight)
        invariant
            n == l0.len(),
            t == tight@,
            loose@.len() == n,
            t.len() == n,
            members@.len() == m0.len(),
            n <= m0.len(),
            (loose@, members@) == repack(l0, t, m0, count),
            settles ==> count <= kmin && packing_settles(l0, t, m0, kmin) && !stuck,
            loose@.to_multiset() == t.to_multiset(),
            matched(loose@, t).len() <= n,
            is_permutation(p, m0.len() as int),
            forall|k: int| 0 <= k < m0.len() ==> members@[k] == m0[#[trigger] p[k]],
            forall|k: int| 0 <= k < n ==> #[trigger] p[k] < n && loose@[k] == l0[p[k]],
        decreases n + 1 - matched(loose@, t).len() - (if stuck { 1int } else { 0int }),
    {
        proof {
            if settles && count == kmin {
                assert(repack(l0, t, m0, kmin).0 == t);
            }
        }
        let before = loose.clone();
        proof {
            assert(before@ =~= loose@);
        }
        let ghost pl = loose@;
        let ghost pm = members@;
        let mut i: usize = 0;
        while i < n
            invariant
                n == l0.len(),
                t == tight@,
                pl.len() == n,
                loose@.len() == n,
                t.len() == n,
                members@.len() == m0.len(),
                n <= m0.len(),
                i <= n,
                pack_pass_from(loose@, t, members@, i as int, n as int) == pack_pass(pl, t, pm),
                loose@.to_multiset() == t.to_multiset(),
                is_permutation(p, m0.len() as int),
                forall|k: int| 0 <= k < m0.len() ==> members@[k] == m0[#[trigger] p[k]],
                forall|k: int| 0 <= k < n ==> #[trigger] p[k] < n && loose@[k] == l0[p[k]],
            decreases n - i,
        {
            let x = loose[i];
            let ghost cur = loose@;
            let ghost curm = members@;
            if x != tight[i] {
                let mut j: usize = 0;
                proof {
                    lemma_first_index_from(t, x, 0);
                    broadcast use vstd::seq_lib::group_to_multiset_ensures;
                    assert(cur.contains(x)) by {
                        assert(cur[i as int] == x);
                    }
                    assert(cur.to_multiset().count(x) > 0);
                    assert(t.contains(x));
                    let w = choose|w: int| 0 <= w < t.len() && t[w] == x;
                    assert(first_index_from(t, x, 0) <= w);
                }
                while j < n && tight[j] != x
                    invariant
                        t == tight@,
                        t.len() == n,
                        j <= first_index_from(t, x, 0),
                        first_index_from(t, x, 0) < n,
                        forall|k: int| 0 <= k < first_index_from(t, x, 0) ==> #[trigger] t[k] != x,
                        t[first_index_from(t, x, 0)] == x,
                    decreases n - j,
                {
                    j = j + 1;
                }
                assert(j == first_index_from(t, x, 0));
                swap_entries(&mut loose, i, j);
                swap_entries(&mut members, i, j);
                proof {
                    lemma_swap_multiset(cur, i as int, j as int);
                    let q = swap_at(p, i as int, j as int);
                    assert forall|a: int, b: int| 0 <= a < b < m0.len() implies #[trigger] q[a]
                        != #[trigger] q[b] by {
                        if a != i && a != j && b != i && b != j {
                            assert(q[a] == p[a] && q[b] == p[b]);
                        }
                    }
                    assert forall|k: int| 0 <= k < m0.len() implies members@[k] == m0[#[trigger] q[k]] by {
                        if k == i {
                            assert(members@[k] == curm[j as int]);
                        } else if k == j {
                            assert(members@[k] == curm[i as int]);
                        } else {
                            assert(members@[k] == curm[k]);
                        }
                    }
                    assert forall|k: int| 0 <= k < n implies #[trigger] q[k] < n && loose@[k] == l0[q[k]] by {
                        if k == i {
                            assert(loose@[k] == cur[j as int]);
                        } else if k == j {
                            assert(loose@[k] == cur[i as int]);
                        } else {
                            assert(loose@[k] == cur[k]);
                        }
                    }
                    p = q;
                }
            }
            proof {
                assert(pack_step(cur, t, curm, i as int) == (loose@, members@));
            }
            i = i + 1;
        }
        proof {
            assert(repack(l0, t, m0, count + 1) == pack_pass(pl, t, pm));
            lemma_pass_progress(pl, t, pm, pm, 0, n as int);
            lemma_matched_bound(loose@, t);
            count = count + 1;
        }
        if sizes_equal(&loose, &before) {
            stuck = true;
            proof {
                if settles {
                    let c = (count - 1) as nat;
                    assert(repack(l0, t, m0, c + 1).0 == repack(l0, t, m0, c).0);
                    assert(c < kmin);
                    lemma_stuck(l0, t, m0, c, kmin);
                    assert(false);
                }
            }
        }
    }
    if stuck {
        let q = select_into_place(&mut loose, &mut members, &tight, Ghost(l0), Ghost(m0), Ghost(p));
        proof {
            p = q@;
        }
    } else {
        proof {
            if settles {
                assert(repack(l0, t, m0, count).0 == t);
                assert(count == kmin);
            }
        }
    }
    proof {
        assert(loose@ =~= t);
        assert forall|k: int| 0 <= k < n implies #[trigger] p[k] < n && t[k] == l0[p[k]] by {
        }
    }
    let r = StructDefinition { name: struc.name.clone(), members };
    proof {
        assert forall|k: nat| #[trigger] packing_settles(l0, t, m0, k) implies r.members@
            == repack(l0, t, m0, k).1 by {
            assert(settles);
            if k < kmin {
                assert(repack(l0, t, m0, k).0 != t);
            } else if k > kmin {
                assert(repack(l0, t, m0, kmin).0 != t);
            }
        }
    }
    r
}


/// The line of a member in Solidity: `   <type> <name>;` and a newline.
pub open spec fn member_line(m: StructMember) -> Seq<char> {
    "   "@ + m.type_string.unwrap()@ + " "@ + m.name@ + ";\n"@
}

/// The lines of the members, in order.
pub open spec fn member_lines(ms: Seq<StructMember>) -> Seq<char>
    decreases ms.len(),
{
    if ms.len() == 0 {
        seq![]
    } else {
        member_lines(ms.drop_last()) + member_line(ms.last())
    }
}

/// A struct written out as Solidity in a fenced code block.
pub open spec fn sol_representation(s: StructDefinition) -> Seq<char> {
    "```solidity\nstruct "@ + s.name@ + " {\n"@ + member_lines(s.members@) + "}\n```"@
}

/// Writes a struct out as Solidity source in a fenced code block, one member
/// per line.
pub fn struct_to_sol_representation(struc: &StructDefinition) -> (r: String)
    requires
        forall|k: int| 0 <= k < struc.members@.len() ==> (#[trigger] struc.members@[k]).type_string.is_some(),
    ensures
        r@ == sol_representation(*struc),
{
    let mut rep = String::new();
    rep.append("```solidity\nstruct ");
    rep.append(struc.name.as_str());
    rep.append(" {\n");
    let ghost head = rep@;
    let mut i: usize = 0;
    while i < struc.members.len()
        invariant
            i <= struc.members@.len(),
            forall|k: int| 0 <= k < struc.members@.len() ==> (#[trigger] struc.members@[k]).type_string.is_some(),
            rep@ == head + member_lines(struc.members@.subrange(0, i as int)),
        decreases struc.members@.len() - i,
    {
        let m = &struc.members[i];
        let ghost before = rep@;
        match &m.type_string {
            Some(t) => {
                rep.append("   ");
                rep.append(t.as_str());
                rep.append(" ");
                rep.append(m.name.as_str());
                rep.append(";\n");
            },
            None => {},
        }
        proof {
            let sub = struc.members@.subrange(0, i + 1);
            assert(sub.drop_last() =~= struc.members@.subrange(0, i as int));
            assert(sub.last() == *m);
            assert(rep@ =~= before + member_line(*m));
        }
        i = i + 1;
    }
    rep.append("}\n```");
    proof {
        assert(struc.members@.subrange(0, struc.members@.len() as int) =~= struc.members@);
        assert(rep@ =~= sol_representation(*struc));
    }
    rep
}

} // verus!
