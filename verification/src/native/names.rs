//! Names that are easily taken for one another.
use crate::text::{bytes_of, text_eq};
use vstd::prelude::*;
use vstd::string::StringSliceAdditionalSpecFns;

verus! {

/// Whether `a` and `b` agree before position `i` and behind it.
pub open spec fn replaced_at(a: Seq<u8>, b: Seq<u8>, i: int) -> bool {
    &&& 0 <= i < a.len()
    &&& a.len() == b.len()
    &&& a.subrange(0, i) == b.subrange(0, i)
    &&& a.subrange(i + 1, a.len() as int) == b.subrange(i + 1, b.len() as int)
}

/// Whether `b` is `a` with one more byte at position `i`.
pub open spec fn inserted_at(a: Seq<u8>, b: Seq<u8>, i: int) -> bool {
    &&& 0 <= i <= a.len()
    &&& a.len() + 1 == b.len()
    &&& a.subrange(0, i) == b.subrange(0, i)
    &&& a.subrange(i, a.len() as int) == b.subrange(i + 1, b.len() as int)
}

/// Whether `b` is `a` with the byte at one position replaced.
pub open spec fn one_replaced(a: Seq<u8>, b: Seq<u8>) -> bool {
    exists|i: int| replaced_at(a, b, i)
}

/// Whether `b` is `a` with one byte inserted.
pub open spec fn one_inserted(a: Seq<u8>, b: Seq<u8>) -> bool {
    exists|i: int| inserted_at(a, b, i)
}

/// Whether two names differ, but only by one byte that is replaced, missing
/// or added.
pub open spec fn near_miss(a: Seq<u8>, b: Seq<u8>) -> bool {
    a != b && (one_replaced(a, b) || one_inserted(a, b) || one_inserted(b, a))
}

/// The length of the longest common prefix of two byte strings.
fn common_prefix(a: &[u8], b: &[u8]) -> (res: usize)
    ensures
        res <= a@.len(),
        res <= b@.len(),
        a@.subrange(0, res as int) == b@.subrange(0, res as int),
        res < a@.len() && res < b@.len() ==> a@[res as int] != b@[res as int],
{
    let mut i: usize = 0;
    while i < a.len() && i < b.len() && a[i] == b[i]
        invariant
            i <= a@.len(),
            i <= b@.len(),
            forall|k: int| 0 <= k < i ==> a@[k] == b@[k],
        decreases a@.len() - i,
    {
        i += 1;
    }
    assert(a@.subrange(0, i as int) =~= b@.subrange(0, i as int));
    i
}

/// Whether `a[from_a..]` and `b[from_b..]` hold the same bytes.
fn same_tail(a: &[u8], from_a: usize, b: &[u8], from_b: usize) -> (res: bool)
    requires
        from_a <= a@.len(),
        from_b <= b@.len(),
    ensures
        res == (a@.subrange(from_a as int, a@.len() as int) == b@.subrange(
            from_b as int,
            b@.len() as int,
        )),
{
    let ghost x = a@.subrange(from_a as int, a@.len() as int);
    let ghost y = b@.subrange(from_b as int, b@.len() as int);
    if a.len() - from_a != b.len() - from_b {
        assert(x.len() != y.len());
        return false;
    }
    let n = a.len() - from_a;
    let mut k: usize = 0;
    while k < n
        invariant
            k <= n,
            n == a@.len() - from_a,
            n == b@.len() - from_b,
            forall|j: int| 0 <= j < k ==> #[trigger] x[j] == y[j],
            x == a@.subrange(from_a as int, a@.len() as int),
            y == b@.subrange(from_b as int, b@.len() as int),
        decreases n - k,
    {
        if a[from_a + k] != b[from_b + k] {
            assert(x[k as int] != y[k as int]);
            return false;
        }
        assert(x[k as int] == y[k as int]);
        k += 1;
    }
    assert(x =~= y);
    true
}

proof fn lemma_replaced_at_prefix(a: Seq<u8>, b: Seq<u8>, p: int)
    requires
        a != b,
        0 <= p <= a.len(),
        p <= b.len(),
        a.subrange(0, p) == b.subrange(0, p),
        p < a.len() && p < b.len() ==> a[p] != b[p],
    ensures
        one_replaced(a, b) <==> a.len() == b.len() && p < a.len() && a.subrange(
            p + 1,
            a.len() as int,
        ) == b.subrange(p + 1, b.len() as int),
{
    if one_replaced(a, b) {
        let i = choose|i: int| replaced_at(a, b, i);
        if p == a.len() {
            assert(a =~= a.subrange(0, p));
            assert(b =~= b.subrange(0, p));
        }
        if i < p {
            // Both prefixes agree beyond `i`, so the whole texts agree.
            assert forall|k: int| 0 <= k < a.len() implies a[k] == b[k] by {
                if k <= i {
                    let x = a.subrange(0, p);
                    let y = b.subrange(0, p);
                    assert(x[k] == a[k]);
                    assert(y[k] == b[k]);
                } else {
                    let x = a.subrange(i + 1, a.len() as int);
                    let y = b.subrange(i + 1, b.len() as int);
                    assert(x[k - i - 1] == a[k]);
                    assert(y[k - i - 1] == b[k]);
                }
            }
            assert(a =~= b);
        } else if i > p {
            assert(a.subrange(0, i)[p] == b.subrange(0, i)[p]);
        }
    } else if a.len() == b.len() && p < a.len() && a.subrange(p + 1, a.len() as int) == b.subrange(
        p + 1,
        b.len() as int,
    ) {
        assert(replaced_at(a, b, p));
    }
}

proof fn lemma_inserted_at_prefix(a: Seq<u8>, b: Seq<u8>, p: int)
    requires
        0 <= p <= a.len(),
        p <= b.len(),
        a.subrange(0, p) == b.subrange(0, p),
        p < a.len() && p < b.len() ==> a[p] != b[p],
    ensures
        one_inserted(a, b) <==> a.len() + 1 == b.len() && a.subrange(p, a.len() as int)
            == b.subrange(p + 1, b.len() as int),
{
    if one_inserted(a, b) {
        let i = choose|i: int| inserted_at(a, b, i);
        if i > p {
            assert(p < a.len());
            assert(a.subrange(0, i)[p] == b.subrange(0, i)[p]);
        }
        assert forall|k: int| p <= k < a.len() implies a[k] == b[k + 1] by {
            assert(a.subrange(i, a.len() as int)[k - i] == b.subrange(i + 1, b.len() as int)[k
                - i]);
        }
        assert(a.subrange(p, a.len() as int) =~= b.subrange(p + 1, b.len() as int));
    } else if a.len() + 1 == b.len() && a.subrange(p, a.len() as int) == b.subrange(
        p + 1,
        b.len() as int,
    ) {
        assert(inserted_at(a, b, p));
    }
}

/// Whether two names differ, but only by one byte that is replaced, missing
/// or added.
pub fn is_near_miss(a: &str, b: &str) -> (res: bool)
    ensures
        res == near_miss(bytes_of(a@), bytes_of(b@)),
{
    let x = a.as_bytes();
    let y = b.as_bytes();
    let p = common_prefix(x, y);
    if p == x.len() && p == y.len() {
        assert(x@ =~= x@.subrange(0, p as int));
        assert(y@ =~= y@.subrange(0, p as int));
        return false;
    }
    proof {
        if x@ == y@ {
            assert(x@.len() == y@.len());
            if p < x@.len() {
                assert(x@[p as int] != y@[p as int]);
            }
        }
        lemma_replaced_at_prefix(x@, y@, p as int);
        lemma_inserted_at_prefix(x@, y@, p as int);
        lemma_inserted_at_prefix(y@, x@, p as int);
    }
    if x.len() == y.len() {
        p < x.len() && same_tail(x, p + 1, y, p + 1)
    } else if y.len() > 0 && x.len() == y.len() - 1 {
        same_tail(x, p, y, p + 1)
    } else if x.len() > 0 && y.len() == x.len() - 1 {
        same_tail(y, p, x, p + 1)
    } else {
        false
    }
}

/// The position of the first text of `names` that equals `name`, or the
/// number of names when there is none.
pub open spec fn name_position(names: Seq<Seq<char>>, name: Seq<char>) -> int {
    crate::order::first_where(names, is_text(name))
}

/// Whether a text equals `name`.
pub open spec fn is_text(name: Seq<char>) -> spec_fn(Seq<char>) -> bool {
    |n: Seq<char>| n == name
}

/// Whether a text is a near miss of `name`.
pub open spec fn is_near(name: Seq<char>) -> spec_fn(Seq<char>) -> bool {
    |n: Seq<char>| near_miss(bytes_of(n), bytes_of(name))
}

/// The position of the first text of `names` that equals `name`.
pub fn find_name(names: &Vec<String>, name: &str) -> (res: usize)
    ensures
        res == name_position(crate::decision::texts_view(names@), name@),
        res <= names@.len(),
{
    let ghost nv = crate::decision::texts_view(names@);
    let mut i: usize = 0;
    while i < names.len()
        invariant
            i <= names.len(),
            nv == crate::decision::texts_view(names@),
            forall|k: int| 0 <= k < i ==> !is_text(name@)(#[trigger] nv[k]),
        decreases names.len() - i,
    {
        proof {
            assert(nv[i as int] == names@[i as int]@);
        }
        if text_eq(names[i].as_str(), name) {
            proof {
                crate::order::lemma_first_where_is(nv, is_text(name@), i as int);
            }
            return i;
        }
        i += 1;
    }
    proof {
        crate::order::lemma_first_where_is(nv, is_text(name@), nv.len() as int);
    }
    i
}

/// The position of the first text of `names` that is a near miss of `name`.
pub fn find_near_miss(names: &Vec<String>, name: &str) -> (res: usize)
    ensures
        res == crate::order::first_where(crate::decision::texts_view(names@), is_near(name@)),
        res <= names@.len(),
{
    let ghost nv = crate::decision::texts_view(names@);
    let mut i: usize = 0;
    while i < names.len()
        invariant
            i <= names.len(),
            nv == crate::decision::texts_view(names@),
            forall|k: int| 0 <= k < i ==> !is_near(name@)(#[trigger] nv[k]),
        decreases names.len() - i,
    {
        proof {
            assert(nv[i as int] == names@[i as int]@);
        }
        if is_near_miss(names[i].as_str(), name) {
            proof {
                crate::order::lemma_first_where_is(nv, is_near(name@), i as int);
            }
            return i;
        }
        i += 1;
    }
    proof {
        crate::order::lemma_first_where_is(nv, is_near(name@), nv.len() as int);
    }
    i
}

} // verus!
