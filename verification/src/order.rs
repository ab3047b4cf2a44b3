//! Orders used to arrange tasks and events, and a stable sort that arranges
//! a sequence by any total preorder.

use vstd::prelude::*;

verus! {

/// Lexicographic order on byte strings: a proper prefix comes first,
/// otherwise the first differing byte decides.
pub open spec fn bytes_le(a: Seq<u8>, b: Seq<u8>) -> bool
    decreases a.len(),
{
    if a.len() == 0 {
        true
    } else if b.len() == 0 {
        false
    } else if a[0] < b[0] {
        true
    } else if a[0] > b[0] {
        false
    } else {
        bytes_le(a.drop_first(), b.drop_first())
    }
}

/// Order of strings as Rust orders them: lexicographically by their UTF-8 bytes.
pub open spec fn text_le(a: Seq<char>, b: Seq<char>) -> bool {
    bytes_le(vstd::utf8::encode_utf8(a), vstd::utf8::encode_utf8(b))
}

/// `leq` is transitive and total, so equivalent items may exist but every
/// two items are comparable.
pub open spec fn total_preorder<T>(leq: spec_fn(T, T) -> bool) -> bool {
    &&& forall|a: T, b: T| #[trigger] leq(a, b) || leq(b, a)
    &&& forall|a: T, b: T, c: T| #[trigger] leq(a, b) && #[trigger] leq(b, c) ==> leq(a, c)
}

/// Every item is `leq` every later item.
pub open spec fn sorted_by<T>(s: Seq<T>, leq: spec_fn(T, T) -> bool) -> bool {
    forall|i: int, j: int| 0 <= i < j < s.len() ==> #[trigger] leq(s[i], s[j])
}

/// `out[i] == input[p[i]]` for a permutation `p` of the positions of `input`
/// that keeps the relative order of items that `leq` finds equivalent.
pub open spec fn stable_permutation<T>(
    input: Seq<T>,
    out: Seq<T>,
    p: Seq<int>,
    leq: spec_fn(T, T) -> bool,
) -> bool {
    &&& p.len() == input.len()
    &&& out.len() == input.len()
    &&& forall|i: int| 0 <= i < p.len() ==> 0 <= #[trigger] p[i] < input.len()
    &&& forall|i: int| 0 <= i < p.len() ==> out[i] == input[#[trigger] p[i]]
    &&& forall|i: int, j: int| 0 <= i < j < p.len() ==> #[trigger] p[i] != #[trigger] p[j]
    &&& forall|i: int, j: int|
        0 <= i < j < p.len() && #[trigger] leq(out[j], out[i]) ==> p[i] < #[trigger] p[j]
}

/// `out` is `input` stably sorted by `leq`: sorted, and a permutation of
/// `input` in which equivalent items keep their order.
pub open spec fn is_stable_sort_of<T>(
    input: Seq<T>,
    out: Seq<T>,
    leq: spec_fn(T, T) -> bool,
) -> bool {
    &&& sorted_by(out, leq)
    &&& exists|p: Seq<int>| stable_permutation(input, out, p, leq)
}

pub proof fn lemma_bytes_le_total(a: Seq<u8>, b: Seq<u8>)
    ensures
        bytes_le(a, b) || bytes_le(b, a),
    decreases a.len(),
{
    if a.len() > 0 && b.len() > 0 && a[0] == b[0] {
        lemma_bytes_le_total(a.drop_first(), b.drop_first());
    }
}

pub proof fn lemma_bytes_le_transitive(a: Seq<u8>, b: Seq<u8>, c: Seq<u8>)
    requires
        bytes_le(a, b),
        bytes_le(b, c),
    ensures
        bytes_le(a, c),
    decreases a.len(),
{
    if a.len() > 0 && b.len() > 0 && c.len() > 0 && a[0] == b[0] && b[0] == c[0] {
        lemma_bytes_le_transitive(a.drop_first(), b.drop_first(), c.drop_first());
    }
}

proof fn lemma_permutation_onto<T>(input: Seq<T>, out: Seq<T>, p: Seq<int>, leq: spec_fn(T, T) -> bool, v: int)
    requires
        stable_permutation(input, out, p, leq),
        0 <= v < input.len(),
    ensures
        exists|j: int| 0 <= j < p.len() && p[j] == v,
{
    let n = input.len() as int;
    assert(p.no_duplicates()) by {
        assert forall|a: int, b: int| 0 <= a < p.len() && 0 <= b < p.len() && a != b implies p[a] != p[b] by {
            if a < b {
                assert(p[a] != p[b]);
            } else {
                assert(p[b] != p[a]);
            }
        }
    }
    p.unique_seq_to_set();
    vstd::set_lib::lemma_int_range(0, n);
    let range = vstd::set_lib::set_int_range(0, n);
    assert(p.to_set().subset_of(range)) by {
        assert forall|x: int| p.to_set().contains(x) implies range.contains(x) by {
            let j = choose|j: int| 0 <= j < p.len() && p[j] == x;
            assert(0 <= p[j] < n);
        }
    }
    vstd::set_lib::lemma_subset_equality(p.to_set(), range);
    assert(range.contains(v));
    assert(p.to_set().contains(v));
}

proof fn lemma_sorted_prefix_fixed<T>(input: Seq<T>, out: Seq<T>, p: Seq<int>, leq: spec_fn(T, T) -> bool, i: int)
    requires
        sorted_by(input, leq),
        sorted_by(out, leq),
        stable_permutation(input, out, p, leq),
        0 <= i <= input.len(),
    ensures
        forall|k: int| 0 <= k < i ==> p[k] == k,
    decreases i,
{
    if i > 0 {
        let c = i - 1;
        lemma_sorted_prefix_fixed(input, out, p, leq, c);
        if p[c] < c {
            let k = p[c];
            assert(p[k] == k);
            assert(p[k] != p[c]);
        } else if p[c] > c {
            lemma_permutation_onto(input, out, p, leq, c);
            let j = choose|j: int| 0 <= j < p.len() && p[j] == c;
            if j < c {
                assert(p[j] == j);
            }
            assert(j > c);
            assert(leq(input[c], input[p[c]]));
            assert(out[j] == input[c]);
            assert(out[c] == input[p[c]]);
            assert(leq(out[j], out[c]));
            assert(p[c] < p[j]);
        }
    }
}

/// Stably sorting a sequence that is already sorted leaves it as it is.
pub proof fn lemma_stable_sort_of_sorted<T>(input: Seq<T>, out: Seq<T>, leq: spec_fn(T, T) -> bool)
    requires
        sorted_by(input, leq),
        is_stable_sort_of(input, out, leq),
    ensures
        out == input,
{
    let p = choose|p: Seq<int>| stable_permutation(input, out, p, leq);
    lemma_sorted_prefix_fixed(input, out, p, leq, input.len() as int);
    assert forall|k: int| 0 <= k < out.len() implies out[k] == input[k] by {
        assert(p[k] == k);
    }
    assert(out =~= input);
}

/// Every item of a stable sort is an item of its input.
pub proof fn lemma_stable_sort_keeps_items<T>(input: Seq<T>, out: Seq<T>, leq: spec_fn(T, T) -> bool)
    requires
        is_stable_sort_of(input, out, leq),
    ensures
        forall|k: int| 0 <= k < out.len() ==> input.contains(#[trigger] out[k]),
{
    let p = choose|p: Seq<int>| stable_permutation(input, out, p, leq);
    assert forall|k: int| 0 <= k < out.len() implies input.contains(#[trigger] out[k]) by {
        let j = p[k];
        assert(0 <= j < input.len());
        assert(out[k] == input[j]);
    }
}

/// Whether `a <= b` as Rust orders string slices: by their UTF-8 bytes.
#[verifier::external_body]
pub fn str_le(a: &str, b: &str) -> (r: bool)
    ensures
        r == text_le(a@, b@),
{
    a <= b
}

/// Stable sorting commutes with taking values: sorting items by an order on
/// their values gives, value by value, the stable sort of the values.
pub proof fn lemma_stable_sort_of_values<T, V>(
    input: Seq<T>,
    out: Seq<T>,
    f: spec_fn(T) -> V,
    leq: spec_fn(V, V) -> bool,
    leq_items: spec_fn(T, T) -> bool,
)
    requires
        is_stable_sort_of(input, out, leq_items),
        forall|a: T, b: T| #[trigger] leq_items(a, b) == leq(f(a), f(b)),
    ensures
        is_stable_sort_of(input.map_values(f), out.map_values(f), leq),
{
    let p = choose|p: Seq<int>| stable_permutation(input, out, p, leq_items);
    let vi = input.map_values(f);
    let vo = out.map_values(f);
    assert forall|i: int, j: int| 0 <= i < j < vo.len() implies #[trigger] leq(vo[i], vo[j]) by {
        assert(leq_items(out[i], out[j]));
    }
    assert forall|i: int, j: int|
        0 <= i < j < p.len() && #[trigger] leq(vo[j], vo[i]) implies p[i] < #[trigger] p[j] by {
        assert(leq_items(out[j], out[i]));
    }
    assert(stable_permutation(vi, vo, p, leq));
}

/// Sorts `v` stably by the total preorder `leq`, which `le` computes.
pub fn stable_sort_by<T, F: Fn(&T, &T) -> bool>(
    v: Vec<T>,
    le: F,
    Ghost(leq): Ghost<spec_fn(T, T) -> bool>,
) -> (out: Vec<T>)
    requires
        total_preorder(leq),
        forall|a: &T, b: &T| #[trigger] le.requires((a, b)),
        forall|a: &T, b: &T, r: bool| #[trigger] le.ensures((a, b), r) ==> r == leq(*a, *b),
    ensures
        is_stable_sort_of(v@, out@, leq),
{
    let ghost input = v@;
    let n = v.len();
    let mut rest = v;
    let mut out: Vec<T> = Vec::new();
    let ghost mut p: Seq<int> = Seq::empty();
    let mut i: usize = 0;
    while i < n
        invariant
            n == input.len(),
            i <= n,
            rest@ == input.subrange(i as int, n as int),
            out@.len() == i,
            total_preorder(leq),
            forall|a: &T, b: &T| #[trigger] le.requires((a, b)),
            forall|a: &T, b: &T, r: bool| #[trigger] le.ensures((a, b), r) ==> r == leq(*a, *b),
            sorted_by(out@, leq),
            stable_permutation(input.subrange(0, i as int), out@, p, leq),
        decreases n - i,
    {
        let x = rest.remove(0);
        assert(x == input[i as int]);
        let mut k: usize = out.len();
        while k > 0 && !le(&out[k - 1], &x)
            invariant
                k <= out@.len(),
                forall|a: &T, b: &T| #[trigger] le.requires((a, b)),
                forall|a: &T, b: &T, r: bool| #[trigger] le.ensures((a, b), r) ==> r == leq(*a, *b),
                forall|j: int| k <= j < out@.len() ==> !leq(#[trigger] out@[j], x),
            decreases k,
        {
            k = k - 1;
        }
        let ghost old_out = out@;
        let ghost old_p = p;
        proof {
            if k > 0 {
                assert(leq(old_out[k - 1], x));
            }
        }
        out.insert(k, x);
        proof {
            p = old_p.insert(k as int, i as int);
            let new_out = out@;
            assert forall|a: int, b: int| 0 <= a < b < new_out.len() implies #[trigger] leq(
                new_out[a],
                new_out[b],
            ) by {
                if b == k {
                    if a < k - 1 {
                        assert(leq(old_out[a], old_out[k - 1]));
                    }
                } else if a == k {
                    assert(!leq(old_out[b - 1], x));
                    assert(leq(x, old_out[b - 1]) || leq(old_out[b - 1], x));
                } else if a < k && b > k {
                    assert(leq(old_out[a], old_out[b - 1]));
                } else if a > k {
                    assert(leq(old_out[a - 1], old_out[b - 1]));
                } else {
                    assert(leq(old_out[a], old_out[b]));
                }
            }
            let prefix = input.subrange(0, i + 1);
            assert(prefix.subrange(0, i as int) =~= input.subrange(0, i as int));
            assert forall|a: int| 0 <= a < p.len() implies 0 <= #[trigger] p[a] < prefix.len()
                && new_out[a] == prefix[p[a]] by {
                if a < k {
                    assert(old_p[a] < i);
                } else if a > k {
                    assert(old_p[a - 1] < i);
                }
            }
            assert forall|a: int, b: int| 0 <= a < b < p.len() implies #[trigger] p[a]
                != #[trigger] p[b] by {
                if a < k && b > k {
                    assert(old_p[a] != old_p[b - 1]);
                } else if a > k {
                    assert(old_p[a - 1] != old_p[b - 1]);
                } else if b < k {
                    assert(old_p[a] != old_p[b]);
                } else if a == k {
                    assert(old_p[b - 1] < i);
                } else {
                    assert(old_p[a] < i);
                }
            }
            assert forall|a: int, b: int|
                0 <= a < b < p.len() && #[trigger] leq(new_out[b], new_out[a]) implies p[a]
                < #[trigger] p[b] by {
                if a < k && b > k {
                    assert(leq(old_out[b - 1], old_out[a]));
                } else if a > k {
                    assert(leq(old_out[b - 1], old_out[a - 1]));
                } else if b < k {
                    assert(leq(old_out[b], old_out[a]));
                } else if a == k {
                    assert(!leq(old_out[b - 1], x));
                } else {
                    assert(old_p[a] < i);
                }
            }
            assert(stable_permutation(prefix, new_out, p, leq));
        }
        i = i + 1;
    }
    assert(input.subrange(0, n as int) =~= input);
    out
}

} // verus!
