use vstd::prelude::*;
use vstd::string::StrSliceExecFns;

verus! {

/// `a` and `b` agree on their first `i` characters.
pub open spec fn same_prefix(a: Seq<char>, b: Seq<char>, i: int) -> bool {
    forall|k: int| 0 <= k < i ==> a[k] == b[k]
}

/// `i` is where `a` and `b` part, and `a` is the smaller there: either `a`
/// ends at `i` while `b` goes on, or the character of `a` at `i` has the
/// lower code point.
pub open spec fn parts_below(a: Seq<char>, b: Seq<char>, i: int) -> bool {
    &&& 0 <= i <= a.len()
    &&& i <= b.len()
    &&& same_prefix(a, b, i)
    &&& ((i == a.len() && i < b.len()) || (i < a.len() && i < b.len() && (a[i] as u32) < (
        b[i] as u32)))
}

/// Lexicographic order of names by code point, the order of `String`'s `<`
/// (UTF-8 keeps the code point order byte by byte).
pub open spec fn name_lt(a: Seq<char>, b: Seq<char>) -> bool {
    exists|i: int| parts_below(a, b, i)
}

/// No name is below itself, and of two names at most one is below the other.
pub proof fn law_name_order_strict(a: Seq<char>, b: Seq<char>)
    ensures
        !name_lt(a, a),
        name_lt(a, b) ==> !name_lt(b, a),
{
    if name_lt(a, a) {
        let i = choose|i: int| parts_below(a, a, i);
    }
    if name_lt(a, b) && name_lt(b, a) {
        let i = choose|i: int| parts_below(a, b, i);
        let j = choose|j: int| parts_below(b, a, j);
        if i < j {
            assert(b[i] == a[i]);
        } else if j < i {
            assert(a[j] == b[j]);
        }
    }
}

/// The order of names is transitive.
pub proof fn law_name_order_transitive(a: Seq<char>, b: Seq<char>, c: Seq<char>)
    requires
        name_lt(a, b),
        name_lt(b, c),
    ensures
        name_lt(a, c),
{
    let i = choose|i: int| parts_below(a, b, i);
    let j = choose|j: int| parts_below(b, c, j);
    if i < j {
        assert(parts_below(a, c, i));
    } else if j < i {
        assert(parts_below(a, c, j));
    } else {
        assert(parts_below(a, c, i));
    }
}

proof fn lemma_name_order_total_from(a: Seq<char>, b: Seq<char>, i: int)
    requires
        a != b,
        0 <= i <= a.len(),
        i <= b.len(),
        same_prefix(a, b, i),
    ensures
        name_lt(a, b) || name_lt(b, a),
    decreases a.len() - i,
{
    if i == a.len() && i == b.len() {
        assert(a =~= b);
    } else if i == a.len() {
        assert(parts_below(a, b, i));
    } else if i == b.len() {
        assert(parts_below(b, a, i));
    } else if a[i] != b[i] {
        if (a[i] as u32) < (b[i] as u32) {
            assert(parts_below(a, b, i));
        } else {
            vstd::utf8::char_u32_cast(a[i], a[i] as u32);
            vstd::utf8::char_u32_cast(b[i], b[i] as u32);
            assert((b[i] as u32) < (a[i] as u32));
            assert(parts_below(b, a, i));
        }
    } else {
        lemma_name_order_total_from(a, b, i + 1);
    }
}

/// Of two different names, one comes before the other.
pub proof fn law_name_order_total(a: Seq<char>, b: Seq<char>)
    requires
        a != b,
    ensures
        name_lt(a, b) || name_lt(b, a),
{
    lemma_name_order_total_from(a, b, 0);
}

/// Whether `a` comes before `b` in the order of [`name_lt`].
pub fn name_less(a: &str, b: &str) -> (r: bool)
    ensures
        r == name_lt(a@, b@),
{
    let la = a.unicode_len();
    let lb = b.unicode_len();
    let mut i: usize = 0;
    while i < la && i < lb && a.get_char(i) == b.get_char(i)
        invariant
            la == a@.len(),
            lb == b@.len(),
            i <= la,
            i <= lb,
            same_prefix(a@, b@, i as int),
        decreases la - i,
    {
        i = i + 1;
    }
    if i < la && i < lb {
        let ca = a.get_char(i);
        let cb = b.get_char(i);
        let r = (ca as u32) < (cb as u32);
        if r {
            assert(parts_below(a@, b@, i as int));
        } else {
            assert forall|j: int| !parts_below(a@, b@, j) by {
                if parts_below(a@, b@, j) && j > i {
                    assert(a@[i as int] == b@[i as int]);
                }
            }
        }
        r
    } else if i == la && i < lb {
        assert(parts_below(a@, b@, i as int));
        true
    } else {
        assert forall|j: int| !parts_below(a@, b@, j) by {
            if parts_below(a@, b@, j) && j < i {
            }
        }
        false
    }
}

} // verus!
