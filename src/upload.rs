//! Naming of stored uploads: a taken name gets a numeric suffix before its extension.
use vstd::prelude::*;
use vstd::slice::{slice_subrange, slice_to_vec};
use vstd::string::StringSliceAdditionalSpecFns;
use vstd::relations::injective_on;
use vstd::set_lib::{lemma_int_range, lemma_len_subset, lemma_map_size, set_int_range};
use crate::bytes::{
    decimal, find, find_from, lemma_find_from_bounds, opt_seq, push_all, push_decimal, same_bytes,
};

verus! {

/// The name tried at step `k` for an upload called `name`: the name itself at step 1,
/// then `_k` inserted before the first `.` (or appended when there is none).
pub open spec fn candidate(name: Seq<u8>, k: nat) -> Seq<u8> {
    if k <= 1 {
        name
    } else {
        match find_from(name, ".".spec_bytes(), 0) {
            Some(i) => name.subrange(0, i) + "_".spec_bytes() + decimal(k) + name.subrange(
                i,
                name.len() as int,
            ),
            None => name + "_".spec_bytes() + decimal(k),
        }
    }
}

/// The byte strings that a list of names holds.
pub open spec fn names_of(v: Seq<Vec<u8>>) -> Seq<Seq<u8>> {
    v.map_values(|n: Vec<u8>| n@)
}

/// The first step from `k` up to `bound` whose candidate is not in `taken`.
pub open spec fn first_free_from(name: Seq<u8>, taken: Seq<Seq<u8>>, k: nat, bound: nat) -> Option<nat>
    decreases bound + 1 - k,
{
    if k > bound {
        None
    } else if !taken.contains(candidate(name, k)) {
        Some(k)
    } else {
        first_free_from(name, taken, k + 1, bound)
    }
}

/// The name an upload called `name` is stored under when the names in `taken` exist:
/// the first free candidate, searched in order.
pub open spec fn free_name(name: Seq<u8>, taken: Seq<Seq<u8>>) -> Option<Seq<u8>> {
    match first_free_from(name, taken, 1, taken.len() + 1) {
        Some(k) => Some(candidate(name, k)),
        None => None,
    }
}

proof fn lemma_first_free_is_free(name: Seq<u8>, taken: Seq<Seq<u8>>, k: nat, bound: nat)
    ensures
        first_free_from(name, taken, k, bound) matches Some(j) ==> k <= j <= bound
            && !taken.contains(candidate(name, j)),
    decreases bound + 1 - k,
{
    if k <= bound && taken.contains(candidate(name, k)) {
        lemma_first_free_is_free(name, taken, k + 1, bound);
    }
}

/// The number that decimal digits spell.
pub open spec fn digits_value(d: Seq<u8>) -> int
    decreases d.len(),
{
    if d.len() == 0 {
        0
    } else {
        digits_value(d.drop_last()) * 10 + (d.last() - 48)
    }
}

/// Decimal text spells the number it was made from, so distinct numbers have distinct
/// text.
pub proof fn lemma_decimal_value(n: nat)
    ensures
        digits_value(decimal(n)) == n,
        decimal(n).len() >= 1,
    decreases n,
{
    if n >= 10 {
        lemma_decimal_value(n / 10);
        let d = decimal(n);
        assert(d.drop_last() =~= decimal(n / 10));
        assert(d.last() as int == 48 + n % 10);
        assert(digits_value(d) == digits_value(decimal(n / 10)) * 10 + (n % 10));
        assert((n / 10) * 10 + n % 10 == n);
        assert(digits_value(decimal(n / 10)) == n / 10);
    } else {
        assert(decimal(n).drop_last() =~= Seq::<u8>::empty());
        assert(decimal(n).last() as int == 48 + n);
        assert(digits_value(decimal(n).drop_last()) == 0);
    }
}

/// Where a suffix goes in `name`: before its first `.`, or at its end.
pub open spec fn suffix_point(name: Seq<u8>) -> int {
    match find_from(name, ".".spec_bytes(), 0) {
        Some(i) => i,
        None => name.len() as int,
    }
}

proof fn lemma_candidate_shape(name: Seq<u8>, k: nat)
    requires
        k >= 2,
    ensures
        0 <= suffix_point(name) <= name.len(),
        candidate(name, k) == name.subrange(0, suffix_point(name)) + seq![95u8] + decimal(k)
            + name.subrange(suffix_point(name), name.len() as int),
{
    reveal_strlit("_");
    reveal_strlit(".");
    vstd::string::is_ascii_spec_bytes("_");
    vstd::string::is_ascii_spec_bytes(".");
    assert("_".spec_bytes() =~= seq![95u8]);
    lemma_find_from_bounds(name, ".".spec_bytes(), 0);
    let p = suffix_point(name);
    if find_from(name, ".".spec_bytes(), 0) is None {
        assert(candidate(name, k) =~= name.subrange(0, p) + seq![95u8] + decimal(k) + name.subrange(
            p,
            name.len() as int,
        ));
    }
}

/// Different steps give different names.
pub proof fn lemma_candidates_differ(name: Seq<u8>, j: nat, k: nat)
    requires
        1 <= j < k,
    ensures
        candidate(name, j) != candidate(name, k),
{
    lemma_candidate_shape(name, k);
    lemma_decimal_value(k);
    let p = suffix_point(name);
    let ck = candidate(name, k);
    assert(ck.len() == name.len() + 1 + decimal(k).len());
    if j >= 2 {
        lemma_candidate_shape(name, j);
        lemma_decimal_value(j);
        let cj = candidate(name, j);
        if decimal(j).len() == decimal(k).len() && cj == ck {
            let dl = decimal(k).len() as int;
            assert(ck.subrange(p + 1, p + 1 + dl) =~= decimal(k));
            assert(cj.subrange(p + 1, p + 1 + dl) =~= decimal(j));
        }
    }
}

proof fn lemma_no_free_means_all_taken(name: Seq<u8>, taken: Seq<Seq<u8>>, k: nat, bound: nat)
    ensures
        first_free_from(name, taken, k, bound) is None ==> forall|j: nat|
            k <= j <= bound ==> taken.contains(#[trigger] candidate(name, j)),
    decreases bound + 1 - k,
{
    if k <= bound {
        lemma_no_free_means_all_taken(name, taken, k + 1, bound);
    }
}

/// A free name always exists among the first `taken.len() + 1` candidates: they are all
/// different, and `taken` cannot hold them all.
pub proof fn lemma_free_name_exists(name: Seq<u8>, taken: Seq<Seq<u8>>)
    ensures
        free_name(name, taken) is Some,
{
    let n = taken.len();
    if first_free_from(name, taken, 1, n + 1) is None {
        lemma_no_free_means_all_taken(name, taken, 1, n + 1);
        let ks = set_int_range(1, n as int + 2);
        let f = |k: int| candidate(name, k as nat);
        lemma_int_range(1, n as int + 2);
        assert(injective_on(f, ks)) by {
            assert forall|a: int, b: int| ks.contains(a) && ks.contains(b) && #[trigger] f(a) == #[trigger] f(b) implies a == b by {
                if a < b {
                    lemma_candidates_differ(name, a as nat, b as nat);
                } else if b < a {
                    lemma_candidates_differ(name, b as nat, a as nat);
                }
            }
        }
        let img = ks.map(f);
        lemma_map_size(ks, img, f);
        assert(img.subset_of(taken.to_set())) by {
            assert forall|x: Seq<u8>| img.contains(x) implies taken.to_set().contains(x) by {
                let k = choose|k: int| ks.contains(k) && x == f(k);
                assert(taken.contains(candidate(name, k as nat)));
            }
        }
        taken.lemma_cardinality_of_set();
        lemma_len_subset(img, taken.to_set());
    }
}

/// The candidate name at step `k`.
pub fn candidate_name(name: &[u8], k: usize) -> (r: Vec<u8>)
    ensures
        r@ == candidate(name@, k as nat),
{
    if k <= 1 {
        return slice_to_vec(name);
    }
    let n = name.len();
    match find(name, ".".as_bytes(), 0) {
        Some(i) => {
            let mut out = slice_to_vec(slice_subrange(name, 0, i));
            push_all(&mut out, "_".as_bytes());
            push_decimal(&mut out, k);
            push_all(&mut out, slice_subrange(name, i, n));
            out
        },
        None => {
            let mut out = slice_to_vec(name);
            push_all(&mut out, "_".as_bytes());
            push_decimal(&mut out, k);
            out
        },
    }
}

/// Whether `c` is one of `taken`.
fn is_taken(c: &[u8], taken: &Vec<Vec<u8>>) -> (r: bool)
    ensures
        r == names_of(taken@).contains(c@),
{
    let mut i: usize = 0;
    while i < taken.len()
        invariant
            i <= taken@.len(),
            forall|j: int| 0 <= j < i ==> taken@[j]@ != c@,
        decreases taken@.len() - i,
    {
        if same_bytes(taken[i].as_slice(), c) {
            assert(names_of(taken@)[i as int] == c@);
            return true;
        }
        i = i + 1;
    }
    assert forall|j: int| 0 <= j < names_of(taken@).len() implies names_of(taken@)[j] != c@ by {
        assert(names_of(taken@)[j] == taken@[j]@);
    }
    false
}

/// The name under which an upload called `name` is stored when the names in `taken`
/// already exist. A returned name is never one of `taken`: no file is overwritten.
pub fn pick_upload_name(name: &[u8], taken: &Vec<Vec<u8>>) -> (r: Option<Vec<u8>>)
    requires
        taken@.len() < usize::MAX,
    ensures
        opt_seq(r) == free_name(name@, names_of(taken@)),
        r is Some,
        r matches Some(n) ==> !names_of(taken@).contains(n@),
{
    let bound = taken.len() + 1;
    let ghost t = names_of(taken@);
    let mut k: usize = 1;
    loop
        invariant
            1 <= k <= bound,
            bound == taken@.len() + 1,
            t == names_of(taken@),
            first_free_from(name@, t, 1, bound as nat) == first_free_from(name@, t, k as nat, bound as nat),
        decreases bound + 1 - k,
    {
        let c = candidate_name(name, k);
        if !is_taken(c.as_slice(), taken) {
            proof {
                lemma_first_free_is_free(name@, t, 1, bound as nat);
            }
            return Some(c);
        }
        if k == bound {
            assert(first_free_from(name@, t, (k + 1) as nat, bound as nat) is None);
            assert(t.len() + 1 == bound);
            assert(free_name(name@, t) is None);
            proof {
                lemma_free_name_exists(name@, t);
            }
            return None;
        }
        k = k + 1;
    }
}

} // verus!
