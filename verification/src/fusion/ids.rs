//! New ids.
use crate::named::{has_text, texts};
use crate::text::{decimal, push_decimal};
use vstd::prelude::*;
use vstd::string::*;

verus! {

/// The `i`th candidate for an id.
pub open spec fn candidate(prefix: Seq<char>, i: nat) -> Seq<char> {
    prefix + decimal(i)
}

/// Whether `i` is the number of the first candidate that is not taken.
pub open spec fn first_free(prefix: Seq<char>, taken: Set<Seq<char>>, i: nat) -> bool {
    !taken.contains(candidate(prefix, i)) && forall|j: nat|
        j < i ==> taken.contains(#[trigger] candidate(prefix, j))
}

/// The first candidate that is not taken.
pub open spec fn fresh(prefix: Seq<char>, taken: Set<Seq<char>>) -> Seq<char> {
    candidate(prefix, choose|i: nat| first_free(prefix, taken, i))
}

/// There is only one first free candidate.
pub proof fn fresh_is(prefix: Seq<char>, taken: Set<Seq<char>>, i: nat)
    requires
        first_free(prefix, taken, i),
    ensures
        fresh(prefix, taken) == candidate(prefix, i),
        !taken.contains(fresh(prefix, taken)),
{
    let k = choose|k: nat| first_free(prefix, taken, k);
    assert(first_free(prefix, taken, k));
    if k < i {
        assert(taken.contains(candidate(prefix, k)));
    }
    if i < k {
        assert(taken.contains(candidate(prefix, i)));
    }
}

/// Distinct candidates for distinct numbers.
pub proof fn candidates_differ(prefix: Seq<char>, i: nat, j: nat)
    requires
        i != j,
    ensures
        candidate(prefix, i) != candidate(prefix, j),
{
    crate::text::decimal_injective(i, j);
    let a = candidate(prefix, i);
    let b = candidate(prefix, j);
    if a == b {
        assert(a.skip(prefix.len() as int) =~= decimal(i));
        assert(b.skip(prefix.len() as int) =~= decimal(j));
    }
}

/// If all candidates below `i` are among the `taken`, there are at least `i` of
/// these.
pub proof fn taken_bound(prefix: Seq<char>, taken: Seq<Seq<char>>, i: nat)
    requires
        forall|j: nat| j < i ==> taken.contains(#[trigger] candidate(prefix, j)),
    ensures
        i <= taken.len(),
{
    let where_is = |j: nat| taken.index_of(candidate(prefix, j));
    let s = Seq::new(i, |j: int| where_is(j as nat));
    assert forall|a: int, b: int| 0 <= a < i && 0 <= b < i && a != b implies s[a] != s[b] by {
        candidates_differ(prefix, a as nat, b as nat);
        assert(taken.contains(candidate(prefix, a as nat)));
        assert(taken.contains(candidate(prefix, b as nat)));
    }
    assert(s.no_duplicates());
    s.unique_seq_to_set();
    let range = vstd::set_lib::set_int_range(0, taken.len() as int);
    vstd::set_lib::lemma_int_range(0, taken.len() as int);
    assert forall|x: int| s.to_set().contains(x) implies range.contains(x) by {
        let a = choose|a: int| 0 <= a < s.len() && s[a] == x;
        assert(taken.contains(candidate(prefix, a as nat)));
    }
    vstd::set_lib::lemma_len_subset(s.to_set(), range);
}

/// Among finitely many taken ids there is always a first free candidate.
pub proof fn fresh_exists(prefix: Seq<char>, taken: Seq<Seq<char>>)
    ensures
        !taken.to_set().contains(fresh(prefix, taken.to_set())),
        exists|i: nat| first_free(prefix, taken.to_set(), i),
{
    let i = first_free_from(prefix, taken, 0);
    fresh_is(prefix, taken.to_set(), i);
}

proof fn first_free_from(prefix: Seq<char>, taken: Seq<Seq<char>>, i: nat) -> (r: nat)
    requires
        forall|j: nat| j < i ==> taken.contains(#[trigger] candidate(prefix, j)),
    ensures
        first_free(prefix, taken.to_set(), r),
    decreases taken.len() + 1 - i,
{
    taken_bound(prefix, taken, i);
    if taken.contains(candidate(prefix, i)) {
        assert forall|j: nat| j < i + 1 implies taken.contains(#[trigger] candidate(prefix, j)) by {
            if j == i {
            }
        }
        taken_bound(prefix, taken, i + 1);
        first_free_from(prefix, taken, i + 1)
    } else {
        i
    }
}

/// The first of `prefix0`, `prefix1`, ... that is not taken.
pub fn generate_unique_id(prefix: &str, taken: &Vec<String>) -> (r: String)
    ensures
        r@ == fresh(prefix@, texts(taken@).to_set()),
        !texts(taken@).contains(r@),
        exists|i: nat| first_free(prefix@, texts(taken@).to_set(), i) && r@ == candidate(prefix@, i),
{
    let ghost set = texts(taken@).to_set();
    let n: usize = taken.len();
    let mut i: u64 = 0;
    loop
        invariant
            n == taken@.len(),
            i <= n,
            set == texts(taken@).to_set(),
            forall|j: nat| j < i ==> texts(taken@).contains(#[trigger] candidate(prefix@, j)),
        decreases n - i,
    {
        let mut id: String = prefix.to_owned();
        push_decimal(&mut id, i);
        if !has_text(taken, id.as_str()) {
            proof {
                assert(id@ == candidate(prefix@, i as nat));
                assert(first_free(prefix@, set, i as nat));
                fresh_is(prefix@, set, i as nat);
            }
            return id;
        }
        proof {
            assert forall|j: nat| j < i + 1 implies texts(taken@).contains(
                #[trigger] candidate(prefix@, j),
            ) by {
                if j == i {
                    assert(id@ == candidate(prefix@, j));
                }
            }
            taken_bound(prefix@, texts(taken@), (i + 1) as nat);
        }
        i = i + 1;
    }
}

/// The id that `unique_id` gives: the prefix, or else the first free of
/// `prefix-0`, `prefix-1`, ...
pub open spec fn suffixed(prefix: Seq<char>, taken: Set<Seq<char>>) -> Seq<char> {
    if taken.contains(prefix) {
        fresh(prefix + "-"@, taken)
    } else {
        prefix
    }
}

/// The prefix itself, or else the first of `prefix-0`, `prefix-1`, ... that is not
/// taken.
pub fn unique_id(prefix: &str, taken: &Vec<String>) -> (r: String)
    ensures
        r@ == suffixed(prefix@, texts(taken@).to_set()),
        !texts(taken@).contains(r@),
{
    if !has_text(taken, prefix) {
        prefix.to_owned()
    } else {
        let dashed = crate::text::join2(prefix, "-");
        generate_unique_id(dashed.as_str(), taken)
    }
}

} // verus!
