//! The claimed-name registry: the set of display names currently held by a
//! live connection.  The set itself is a concurrent set from the `dashmap`
//! crate, reached only through trusted wrappers; everything above those
//! wrappers is verified against the set-of-names view `claimed`.

use crate::generator::NameGenerator;
use crate::name_rules::valid_name_seq;
use crate::text::{dec_seq, decimal, lemma_dec_seq_digits, lemma_dec_seq_injective,
    lemma_dec_seq_len_min, lemma_dec_seq_len_upper, pow10};
use dashmap::DashSet;
use vstd::prelude::*;

verus! {

#[verifier::external_type_specification]
#[verifier::external_body]
#[verifier::reject_recursive_types(K)]
#[verifier::reject_recursive_types(S)]
pub struct ExDashSet<K, S>(DashSet<K, S>);

/// The names the underlying concurrent set currently holds.
pub uninterp spec fn claimed(s: DashSet<String>) -> Set<Seq<char>>;

/// Relies on dashmap::DashSet::new: a fresh set holds nothing.
#[verifier::external_body]
fn dash_set_new() -> (s: DashSet<String>)
    ensures
        claimed(s) == Set::<Seq<char>>::empty(),
{
    DashSet::new()
}

/// Relies on dashmap::DashSet::insert: atomically claims the key and
/// reports whether it was absent before the call.
#[verifier::external_body]
fn dash_set_insert(s: &mut DashSet<String>, name: String) -> (r: bool)
    ensures
        r == !claimed(*old(s)).contains(name@),
        claimed(*final(s)) == claimed(*old(s)).insert(name@),
{
    s.insert(name)
}

/// Relies on dashmap::DashSet::remove: releases the key, returning it when
/// it was present.
#[verifier::external_body]
fn dash_set_remove(s: &mut DashSet<String>, name: &str) -> (r: bool)
    ensures
        r == claimed(*old(s)).contains(name@),
        claimed(*final(s)) == claimed(*old(s)).remove(name@),
{
    s.remove(name).is_some()
}

/// Relies on dashmap::DashSet::len: the number of entries the set holds.
#[verifier::external_body]
fn dash_set_len(s: &DashSet<String>) -> (r: usize)
    ensures
        r == claimed(*s).len(),
{
    s.len()
}

/// The registry of display names currently in use.
pub struct Names {
    set: DashSet<String>,
}

impl View for Names {
    type V = Set<Seq<char>>;

    closed spec fn view(&self) -> Set<Seq<char>> {
        claimed(self.set)
    }
}

impl Names {
    /// The registry holds finitely many names: true from `new` on, and
    /// preserved by every operation.
    pub closed spec fn inv(self) -> bool {
        claimed(self.set).finite()
    }

    pub fn new() -> (r: Names)
        ensures
            r.inv(),
            r@ == Set::<Seq<char>>::empty(),
    {
        Names { set: dash_set_new() }
    }

    /// Atomically claims `name`; returns false, changing nothing, when it
    /// is already held.
    pub fn insert(&mut self, name: String) -> (r: bool)
        requires
            old(self).inv(),
        ensures
            final(self).inv(),
            r == !old(self)@.contains(name@),
            final(self)@ == old(self)@.insert(name@),
    {
        dash_set_insert(&mut self.set, name)
    }

    /// Releases `name`; returns whether it had been held.
    pub fn remove(&mut self, name: &str) -> (r: bool)
        requires
            old(self).inv(),
        ensures
            final(self).inv(),
            r == old(self)@.contains(name@),
            final(self)@ == old(self)@.remove(name@),
    {
        dash_set_remove(&mut self.set, name)
    }

    /// The number of names currently held.
    pub fn count(&self) -> (r: usize)
        ensures
            r == self@.len(),
    {
        dash_set_len(&self.set)
    }

    /// Draws candidates from the generator until one is claimed, and
    /// returns the claimed name, which always obeys the display-name rule.
    ///
    /// The candidate space is astronomically larger than any registry, so
    /// the draw loop succeeds in practice on its first few tries; to make
    /// termination provable the loop carries a generous attempt budget,
    /// after which numeric names of eight or more digits are probed in
    /// order, so every probe also has a display-friendly length.  More
    /// names than the capacity bound below can never be live at once,
    /// whence one of the probes must be free.
    pub fn get_unique(&mut self, name_generator: &mut NameGenerator) -> (r: String)
        requires
            old(self).inv(),
            old(name_generator).wf(),
            old(self)@.len() < 1000000000000,
        ensures
            final(self).inv(),
            final(name_generator).wf(),
            valid_name_seq(r@),
            8 <= r@.len() <= 18,
            !old(self)@.contains(r@),
            final(self)@ == old(self)@.insert(r@),
            (exists|i: int, j: int|
                0 <= i < old(name_generator).adj_words().len()
                    && 0 <= j < old(name_generator).char_words().len()
                    && r@ == old(name_generator).adj_words()[i]@
                    + old(name_generator).char_words()[j]@)
                || (exists|k: nat| r@ == dec_seq(k)),
    {
        let mut fuel: u64 = 100000;
        while fuel > 0
            invariant
                self.inv(),
                name_generator.wf(),
                name_generator.adj_words() == old(name_generator).adj_words(),
                name_generator.char_words() == old(name_generator).char_words(),
                self@ == old(self)@,
            decreases fuel,
        {
            let name = name_generator.next();
            let ghost pre = self@;
            if self.insert(name.clone()) {
                return name;
            }
            proof {
                assert(pre.insert(name@) =~= pre);
            }
            fuel = fuel - 1;
        }
        let ghost mut tried: Seq<Seq<char>> = Seq::empty();
        let mut k: u64 = 10000000;
        while k < 1000010000001
            invariant
                self.inv(),
                name_generator.wf(),
                self@ == old(self)@,
                old(self)@.finite(),
                old(self)@.len() < 1000000000000,
                10000000 <= k <= 1000010000001,
                tried.len() == k - 10000000,
                forall|t: int|
                    0 <= t < tried.len() ==> #[trigger] tried[t] == dec_seq((t + 10000000) as nat)
                        && old(self)@.contains(tried[t]),
            decreases 1000010000001 - k,
        {
            let name = decimal(k);
            proof {
                assert(name@ == dec_seq(k as nat));
                lemma_pow10_values();
                lemma_dec_seq_len_min(k as nat, 7);
                lemma_dec_seq_len_upper(k as nat, 13);
                lemma_dec_seq_digits(k as nat);
                assert(valid_name_seq(name@));
            }
            let ghost pre = self@;
            if self.insert(name.clone()) {
                return name;
            }
            proof {
                assert(pre.insert(name@) =~= pre);
                tried = tried.push(name@);
            }
            k = k + 1;
        }
        proof {
            assert(tried.len() == 1000000000001);
            assert forall|i: int, j: int| 0 <= i < j < tried.len() implies tried[i] != tried[j] by {
                if tried[i] == tried[j] {
                    lemma_dec_seq_injective((i + 10000000) as nat, (j + 10000000) as nat);
                }
            }
            assert(tried.no_duplicates());
            tried.unique_seq_to_set();
            assert(tried.to_set().subset_of(old(self)@));
            vstd::set_lib::lemma_len_subset(tried.to_set(), old(self)@);
            assert(false);
        }
        String::new()
    }
}

proof fn lemma_pow10_values()
    ensures
        pow10(7) == 10000000,
        pow10(13) == 10000000000000,
{
    assert(pow10(0) == 1);
    assert(pow10(1) == 10);
    assert(pow10(2) == 100);
    assert(pow10(3) == 1000);
    assert(pow10(4) == 10000);
    assert(pow10(5) == 100000);
    assert(pow10(6) == 1000000);
    assert(pow10(7) == 10000000);
    assert(pow10(8) == 100000000);
    assert(pow10(9) == 1000000000);
    assert(pow10(10) == 10000000000);
    assert(pow10(11) == 100000000000);
    assert(pow10(12) == 1000000000000);
    assert(pow10(13) == 10000000000000);
}

// ---------------------------------------------------------------------------
// The registry's uniqueness law
// ---------------------------------------------------------------------------
/// One registry operation, named by the display name it claims or
/// releases.  `Names::insert` and `Names::remove` realise exactly these
/// transitions on the registry's view: their results equal `op_succeeds`
/// and their final views equal `apply_op`.
pub enum RegistryOp {
    Insert(Seq<char>),
    Remove(Seq<char>),
}

/// The registry after one operation.
pub open spec fn apply_op(s: Set<Seq<char>>, op: RegistryOp) -> Set<Seq<char>> {
    match op {
        RegistryOp::Insert(n) => s.insert(n),
        RegistryOp::Remove(n) => s.remove(n),
    }
}

/// Whether the operation reports success on that registry.
pub open spec fn op_succeeds(s: Set<Seq<char>>, op: RegistryOp) -> bool {
    match op {
        RegistryOp::Insert(n) => !s.contains(n),
        RegistryOp::Remove(n) => s.contains(n),
    }
}

/// The registry after a whole history of operations.
pub open spec fn run_ops(s0: Set<Seq<char>>, ops: Seq<RegistryOp>) -> Set<Seq<char>>
    decreases ops.len(),
{
    if ops.len() == 0 {
        s0
    } else {
        apply_op(run_ops(s0, ops.drop_last()), ops.last())
    }
}

/// A name once claimed stays claimed until some operation releases it.
proof fn lemma_claim_persists(
    s0: Set<Seq<char>>,
    ops: Seq<RegistryOp>,
    m: int,
    m2: int,
    n: Seq<char>,
)
    requires
        0 <= m <= m2 <= ops.len(),
        run_ops(s0, ops.subrange(0, m)).contains(n),
        forall|k: int| m <= k < m2 ==> ops[k] != RegistryOp::Remove(n),
    ensures
        run_ops(s0, ops.subrange(0, m2)).contains(n),
    decreases m2 - m,
{
    if m < m2 {
        lemma_claim_persists(s0, ops, m, m2 - 1, n);
        assert(ops.subrange(0, m2).drop_last() =~= ops.subrange(0, m2 - 1));
        assert(ops.subrange(0, m2).last() == ops[m2 - 1]);
        let prev = run_ops(s0, ops.subrange(0, m2 - 1));
        assert(run_ops(s0, ops.subrange(0, m2)) == apply_op(prev, ops[m2 - 1]));
        match ops[m2 - 1] {
            RegistryOp::Insert(x) => {
                assert(prev.insert(x).contains(n));
            },
            RegistryOp::Remove(x) => {
                assert(x != n);
                assert(prev.remove(x).contains(n));
            },
        }
    }
}

/// In any history of registry operations, two claims of the same name
/// cannot both succeed unless a release of that name stands between them.
pub proof fn lemma_no_double_claim(
    s0: Set<Seq<char>>,
    ops: Seq<RegistryOp>,
    i: int,
    j: int,
    n: Seq<char>,
)
    requires
        0 <= i < j < ops.len(),
        ops[i] == RegistryOp::Insert(n),
        ops[j] == RegistryOp::Insert(n),
        op_succeeds(run_ops(s0, ops.subrange(0, i)), ops[i]),
        op_succeeds(run_ops(s0, ops.subrange(0, j)), ops[j]),
    ensures
        exists|k: int| i < k < j && ops[k] == RegistryOp::Remove(n),
{
    if forall|k: int| i < k < j ==> ops[k] != RegistryOp::Remove(n) {
        assert(ops.subrange(0, i + 1).drop_last() =~= ops.subrange(0, i));
        assert(ops.subrange(0, i + 1).last() == ops[i]);
        assert(run_ops(s0, ops.subrange(0, i + 1)) == apply_op(
            run_ops(s0, ops.subrange(0, i)),
            ops[i],
        ));
        assert(run_ops(s0, ops.subrange(0, i + 1)).contains(n));
        lemma_claim_persists(s0, ops, i + 1, j, n);
        assert(false);
    }
}

} // verus!
