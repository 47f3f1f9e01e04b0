//! Ordering: text by code point, and the order in which a stable sort puts a list.
use vstd::prelude::*;

use crate::text::to_chars;

verus! {

/// Whether `a` comes strictly before `b`, character by character.
pub open spec fn text_less(a: Seq<char>, b: Seq<char>) -> bool
    decreases a.len(),
{
    if a.len() == 0 {
        b.len() > 0
    } else if b.len() == 0 {
        false
    } else {
        a[0] < b[0] || (a[0] == b[0] && text_less(a.drop_first(), b.drop_first()))
    }
}

/// No text comes before itself.
pub proof fn text_less_irreflexive(a: Seq<char>)
    ensures
        !text_less(a, a),
    decreases a.len(),
{
    if a.len() > 0 {
        text_less_irreflexive(a.drop_first());
    }
}

/// The order of texts is transitive.
pub proof fn text_less_transitive(a: Seq<char>, b: Seq<char>, c: Seq<char>)
    requires
        text_less(a, b),
        text_less(b, c),
    ensures
        text_less(a, c),
    decreases a.len(),
{
    if a.len() > 0 && b.len() > 0 && c.len() > 0 && a[0] == b[0] && b[0] == c[0] {
        text_less_transitive(a.drop_first(), b.drop_first(), c.drop_first());
    }
}

/// What two texts begin with alike does not count.
pub proof fn text_less_common(head: Seq<char>, a: Seq<char>, b: Seq<char>)
    ensures
        text_less(head + a, head + b) == text_less(a, b),
    decreases head.len(),
{
    if head.len() == 0 {
        assert(head + a =~= a);
        assert(head + b =~= b);
    } else {
        assert((head + a).drop_first() =~= head.drop_first() + a);
        assert((head + b).drop_first() =~= head.drop_first() + b);
        text_less_common(head.drop_first(), a, b);
    }
}

/// What stands behind texts of one length does not count where the texts differ.
pub proof fn text_less_behind(a: Seq<char>, b: Seq<char>, x: Seq<char>, y: Seq<char>)
    requires
        a.len() == b.len(),
        text_less(a, b),
    ensures
        text_less(a + x, b + y),
    decreases a.len(),
{
    assert((a + x).drop_first() =~= a.drop_first() + x);
    assert((b + y).drop_first() =~= b.drop_first() + y);
    if a[0] == b[0] {
        text_less_behind(a.drop_first(), b.drop_first(), x, y);
    }
}

/// Of two different texts, one comes before the other.
pub proof fn text_less_total(a: Seq<char>, b: Seq<char>)
    ensures
        a == b || text_less(a, b) || text_less(b, a),
    decreases a.len(),
{
    if a.len() == 0 {
        if b.len() == 0 {
            assert(a =~= b);
        }
    } else if b.len() > 0 && a[0] == b[0] {
        text_less_total(a.drop_first(), b.drop_first());
        if a.drop_first() == b.drop_first() {
            assert(a =~= seq![a[0]] + a.drop_first());
            assert(b =~= seq![b[0]] + b.drop_first());
        }
    }
}

/// Whether one text comes strictly before another.
pub fn less_text(a: &str, b: &str) -> (res: bool)
    ensures
        res == text_less(a@, b@),
{
    let x = to_chars(a);
    let y = to_chars(b);
    let mut i: usize = 0;
    assert(x@.skip(0) =~= x@);
    assert(y@.skip(0) =~= y@);
    while i < x.len() && i < y.len() && x[i] == y[i]
        invariant
            i <= x@.len(),
            i <= y@.len(),
            text_less(a@, b@) == text_less(x@.skip(i as int), y@.skip(i as int)),
        decreases x@.len() - i,
    {
        assert(x@.skip(i as int).drop_first() =~= x@.skip(i + 1));
        assert(y@.skip(i as int).drop_first() =~= y@.skip(i + 1));
        i = i + 1;
    }
    if i >= x.len() {
        i < y.len()
    } else if i >= y.len() {
        false
    } else {
        x[i] < y[i]
    }
}

/// Whether item `a` goes before item `b` in a stable sort with the strict order `less` on items:
/// the lesser first, and of two that are alike the one that was first.
pub open spec fn goes_before(less: spec_fn(int, int) -> bool, a: int, b: int) -> bool {
    less(a, b) || (!less(b, a) && a < b)
}

/// Whether `ord` lists the items `0..n` as a stable sort puts them.
pub open spec fn is_stable_order(less: spec_fn(int, int) -> bool, n: int, ord: Seq<usize>) -> bool {
    &&& ord.len() == n
    &&& forall|i: int| 0 <= i < n ==> 0 <= #[trigger] ord[i] < n
    &&& forall|i: int, j: int|
        0 <= i < j < n ==> goes_before(less, #[trigger] ord[i] as int, #[trigger] ord[j] as int)
}

/// The order of items by number.
pub open spec fn number_less(keys: Seq<u64>) -> spec_fn(int, int) -> bool {
    |a: int, b: int| keys[a] < keys[b]
}

/// The order of items by text, ascending or descending.
pub open spec fn text_key_less(keys: Seq<String>, descending: bool) -> spec_fn(int, int) -> bool {
    |a: int, b: int|
        if descending {
            text_less(keys[b]@, keys[a]@)
        } else {
            text_less(keys[a]@, keys[b]@)
        }
}

/// What a strict weak order has to satisfy on the items `0..n`.
pub open spec fn is_weak_order(less: spec_fn(int, int) -> bool, n: int) -> bool {
    forall|a: int, b: int, c: int|
        0 <= a < n && 0 <= b < n && 0 <= c < n && #[trigger] goes_before(less, a, b)
            && #[trigger] goes_before(less, b, c) ==> goes_before(less, a, c)
}

proof fn lemma_insert(
    less: spec_fn(int, int) -> bool,
    n: int,
    before: Seq<usize>,
    p: int,
    x: usize,
    after: Seq<usize>,
)
    requires
        is_weak_order(less, n),
        before.len() == x < n,
        0 <= p <= before.len(),
        is_stable_order(less, x as int, before),
        after == before.insert(p, x),
        forall|i: int| 0 <= i < p ==> !less(x as int, #[trigger] before[i] as int),
        p < before.len() ==> less(x as int, before[p] as int),
        forall|a: int, b: int|
            #![trigger less(a, b)]
            0 <= a < n && 0 <= b < n && less(a, b) ==> !less(b, a),
    ensures
        is_stable_order(less, x + 1, after),
{
    assert forall|i: int, j: int| 0 <= i < j < x + 1 implies goes_before(
        less,
        #[trigger] after[i] as int,
        #[trigger] after[j] as int,
    ) by {
        let i0 = if i < p {
            i
        } else {
            i - 1
        };
        let j0 = if j < p {
            j
        } else {
            j - 1
        };
        if i == p {
            assert(after[j] == before[j0]);
            assert(goes_before(less, x as int, before[p] as int));
            if j0 > p {
                assert(goes_before(less, before[p] as int, before[j0] as int));
            }
        } else if j == p {
            assert(after[i] == before[i0]);
            assert(!less(x as int, before[i0] as int));
        } else {
            assert(after[i] == before[i0]);
            assert(after[j] == before[j0]);
        }
    }
    assert forall|i: int| 0 <= i < x + 1 implies 0 <= #[trigger] after[i] < x + 1 by {
        if i != p {
            assert(after[i] == before[if i < p {
                i
            } else {
                i - 1
            }]);
        }
    }
}

/// The stable order of a list of numbers: the positions in ascending order of what stands there.
pub fn order_by_number(keys: &Vec<u64>) -> (res: Vec<usize>)
    ensures
        is_stable_order(number_less(keys@), keys@.len() as int, res@),
{
    let mut out: Vec<usize> = Vec::new();
    let mut i: usize = 0;
    while i < keys.len()
        invariant
            i <= keys@.len(),
            is_stable_order(number_less(keys@), i as int, out@),
        decreases keys@.len() - i,
    {
        let mut p: usize = 0;
        while p < out.len() && !(keys[i] < keys[out[p]])
            invariant
                i < keys@.len(),
                p <= out@.len(),
                is_stable_order(number_less(keys@), i as int, out@),
                forall|j: int| 0 <= j < p ==> !(keys@[i as int] < keys@[#[trigger] out@[j] as int]),
            decreases out@.len() - p,
        {
            p = p + 1;
        }
        let ghost before = out@;
        out.insert(p, i);
        proof {
            let less = number_less(keys@);
            assert forall|j: int| 0 <= j < p implies !less(i as int, #[trigger] before[j] as int) by {}
            lemma_insert(less, keys@.len() as int, before, p as int, i, out@);
        }
        i = i + 1;
    }
    out
}

proof fn lemma_text_weak_order(keys: Seq<String>, descending: bool)
    ensures
        is_weak_order(text_key_less(keys, descending), keys.len() as int),
        forall|a: int, b: int|
            #![trigger text_key_less(keys, descending)(a, b)]
            0 <= a < keys.len() && 0 <= b < keys.len() && text_key_less(keys, descending)(a, b)
                ==> !text_key_less(keys, descending)(b, a),
{
    let less = text_key_less(keys, descending);
    let n = keys.len() as int;
    assert forall|a: int, b: int|
        #![trigger less(a, b)]
        0 <= a < n && 0 <= b < n && less(a, b) implies !less(b, a) by {
        if less(b, a) {
            text_less_transitive(keys[a]@, keys[b]@, keys[a]@);
            text_less_irreflexive(keys[a]@);
        }
    }
    assert forall|a: int, b: int, c: int|
        0 <= a < n && 0 <= b < n && 0 <= c < n && #[trigger] goes_before(less, a, b)
            && #[trigger] goes_before(less, b, c) implies goes_before(less, a, c) by {
        let (ka, kb, kc) = (keys[a]@, keys[b]@, keys[c]@);
        text_less_total(ka, kb);
        text_less_total(kb, kc);
        text_less_total(ka, kc);
        text_less_irreflexive(ka);
        text_less_irreflexive(kb);
        if text_less(ka, kb) && text_less(kb, kc) {
            text_less_transitive(ka, kb, kc);
        }
        if text_less(kc, kb) && text_less(kb, ka) {
            text_less_transitive(kc, kb, ka);
        }
        if text_less(ka, kc) && text_less(kc, ka) {
            text_less_transitive(ka, kc, ka);
        }
    }
}

/// The stable order of a list of texts: the positions in ascending, or descending, order of what
/// stands there.
pub fn order_by_text(keys: &Vec<String>, descending: bool) -> (res: Vec<usize>)
    ensures
        is_stable_order(text_key_less(keys@, descending), keys@.len() as int, res@),
{
    let mut out: Vec<usize> = Vec::new();
    let ghost less = text_key_less(keys@, descending);
    proof {
        lemma_text_weak_order(keys@, descending);
    }
    let mut i: usize = 0;
    while i < keys.len()
        invariant
            i <= keys@.len(),
            less == text_key_less(keys@, descending),
            is_weak_order(less, keys@.len() as int),
            forall|a: int, b: int|
                #![trigger less(a, b)]
                0 <= a < keys@.len() && 0 <= b < keys@.len() && less(a, b) ==> !less(b, a),
            is_stable_order(less, i as int, out@),
        decreases keys@.len() - i,
    {
        let mut p: usize = 0;
        let mut found = false;
        while p < out.len() && !found
            invariant
                i < keys@.len(),
                p <= out@.len(),
                less == text_key_less(keys@, descending),
                is_stable_order(less, i as int, out@),
                forall|j: int| 0 <= j < p ==> !less(i as int, #[trigger] out@[j] as int),
                found ==> p < out@.len() && less(i as int, out@[p as int] as int),
            decreases out@.len() - p + (if found { 0int } else { 1int }),
        {
            let at: usize = out[p];
            found = if descending {
                less_text(keys[at].as_str(), keys[i].as_str())
            } else {
                less_text(keys[i].as_str(), keys[at].as_str())
            };
            if !found {
                p = p + 1;
            }
        }
        let ghost before = out@;
        out.insert(p, i);
        proof {
            lemma_insert(less, keys@.len() as int, before, p as int, i, out@);
        }
        i = i + 1;
    }
    out
}

/// A stable order of the items `0..n` holds each of them.
pub proof fn stable_order_covers(less: spec_fn(int, int) -> bool, n: int, ord: Seq<usize>, x: int)
    requires
        is_stable_order(less, n, ord),
        0 <= x < n,
        forall|a: int| 0 <= a < n ==> !(#[trigger] less(a, a)),
    ensures
        exists|i: int| 0 <= i < n && #[trigger] ord[i] == x,
{
    let ints = ord.map_values(|u: usize| u as int);
    assert(ints.no_duplicates()) by {
        assert forall|i: int, j: int| 0 <= i < ints.len() && 0 <= j < ints.len() && i != j implies ints[i]
            != ints[j] by {
            if i < j {
                assert(goes_before(less, ord[i] as int, ord[j] as int));
            } else {
                assert(goes_before(less, ord[j] as int, ord[i] as int));
            }
        }
    }
    ints.unique_seq_to_set();
    let range = vstd::set_lib::set_int_range(0, n);
    vstd::set_lib::lemma_int_range(0, n);
    assert(ints.to_set().subset_of(range)) by {
        assert forall|v: int| ints.to_set().contains(v) implies range.contains(v) by {
            let i = choose|i: int| 0 <= i < ints.len() && ints[i] == v;
            assert(ints[i] == ord[i] as int);
        }
    }
    vstd::set_lib::lemma_subset_equality(ints.to_set(), range);
    assert(range.contains(x));
    assert(ints.to_set().contains(x));
    let i = choose|i: int| 0 <= i < ints.len() && ints[i] == x;
    assert(ord[i] == x);
}

/// A filter that keeps every item changes nothing.
pub proof fn lemma_all_kept<A>(s: Seq<A>, keep: spec_fn(A) -> bool)
    requires
        forall|i: int| 0 <= i < s.len() ==> keep(#[trigger] s[i]),
    ensures
        s.filter(keep) == s,
    decreases s.len(),
{
    reveal(Seq::filter);
    if s.len() > 0 {
        lemma_all_kept(s.drop_last(), keep);
        assert(s.drop_last().push(s.last()) =~= s);
    } else {
        assert(s.filter(keep) =~= s);
    }
}

/// Texts are in order by the first character in which they differ, and a text comes before what it is
/// the beginning of.
pub proof fn texts_by_their_first_difference(
    head: Seq<char>,
    x: char,
    y: char,
    a: Seq<char>,
    b: Seq<char>,
)
    requires
        (x as u32) < (y as u32),
    ensures
        text_less(head + (seq![x] + a), head + (seq![y] + b)),
        !text_less(head + (seq![y] + b), head + (seq![x] + a)),
        text_less(head, head + (seq![x] + a)),
        !text_less(head + (seq![x] + a), head),
{
    text_less_common(head, seq![x] + a, seq![y] + b);
    text_less_common(head, seq![y] + b, seq![x] + a);
    text_less_common(head, Seq::empty(), seq![x] + a);
    text_less_common(head, seq![x] + a, Seq::empty());
    assert(head + Seq::<char>::empty() =~= head);
}

/// In a stable order by number the numbers do not fall, and items with one number stay in their order.
pub proof fn numbers_in_stable_order(keys: Seq<u64>, ord: Seq<usize>, i: int, j: int)
    requires
        is_stable_order(number_less(keys), keys.len() as int, ord),
        0 <= i < j < ord.len(),
    ensures
        ord.len() == keys.len(),
        keys[ord[i] as int] <= keys[ord[j] as int],
        keys[ord[i] as int] == keys[ord[j] as int] ==> ord[i] < ord[j],
{
    assert(goes_before(number_less(keys), ord[i] as int, ord[j] as int));
}

/// In a stable order by text the texts do not fall, or do not rise where it descends, and items with
/// one text stay in their order.
pub proof fn texts_in_stable_order(
    keys: Seq<String>,
    descending: bool,
    ord: Seq<usize>,
    i: int,
    j: int,
)
    requires
        is_stable_order(text_key_less(keys, descending), keys.len() as int, ord),
        0 <= i < j < ord.len(),
    ensures
        ord.len() == keys.len(),
        keys[ord[i] as int]@ == keys[ord[j] as int]@ ==> ord[i] < ord[j],
        !descending && keys[ord[i] as int]@ != keys[ord[j] as int]@ ==> text_less(
            keys[ord[i] as int]@,
            keys[ord[j] as int]@,
        ),
        descending && keys[ord[i] as int]@ != keys[ord[j] as int]@ ==> text_less(
            keys[ord[j] as int]@,
            keys[ord[i] as int]@,
        ),
{
    let (a, b) = (keys[ord[i] as int]@, keys[ord[j] as int]@);
    assert(goes_before(text_key_less(keys, descending), ord[i] as int, ord[j] as int));
    text_less_total(a, b);
    text_less_irreflexive(a);
}

} // verus!
