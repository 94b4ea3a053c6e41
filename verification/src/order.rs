//! Lexicographic order on byte-string paths, and sorting by it.
//!
//! The bundle's page order is fixed by this order, so the sort's contract
//! pins the result exactly: it equals the mathematical `sort_by` of the
//! input, which makes the order canonical — independent of the order in
//! which the paths were gathered.

use vstd::multiset::Multiset;
use vstd::prelude::*;
use vstd::relations::sorted_by;

verus! {

/// Lexicographic order on byte strings; a prefix comes before its
/// extensions.
pub open spec fn lex_le(a: Seq<u8>, b: Seq<u8>) -> bool
    decreases a.len(),
{
    if a.len() == 0 {
        true
    } else if b.len() == 0 {
        false
    } else if a[0] < b[0] {
        true
    } else if a[0] > b[0] {
        false
    } else {
        lex_le(a.drop_first(), b.drop_first())
    }
}

/// The order as a value, for `sorted_by` and `sort_by`.
pub open spec fn lex_leq() -> spec_fn(Seq<u8>, Seq<u8>) -> bool {
    |a: Seq<u8>, b: Seq<u8>| lex_le(a, b)
}

pub proof fn lemma_lex_le_refl(a: Seq<u8>)
    ensures
        lex_le(a, a),
    decreases a.len(),
{
    if a.len() > 0 {
        lemma_lex_le_refl(a.drop_first());
    }
}

pub proof fn lemma_lex_le_total(a: Seq<u8>, b: Seq<u8>)
    ensures
        lex_le(a, b) || lex_le(b, a),
    decreases a.len(),
{
    if a.len() > 0 && b.len() > 0 && a[0] == b[0] {
        lemma_lex_le_total(a.drop_first(), b.drop_first());
    }
}

pub proof fn lemma_lex_le_antisym(a: Seq<u8>, b: Seq<u8>)
    requires
        lex_le(a, b),
        lex_le(b, a),
    ensures
        a == b,
    decreases a.len(),
{
    if a.len() == 0 {
        assert(b.len() == 0);
        assert(a =~= b);
    } else {
        assert(b.len() > 0);
        assert(a[0] == b[0]);
        lemma_lex_le_antisym(a.drop_first(), b.drop_first());
        assert(a.len() == b.len());
        assert forall|i: int| 0 <= i < a.len() implies a[i] == b[i] by {
            if i > 0 {
                assert(a[i] == a.drop_first()[i - 1]);
                assert(b[i] == b.drop_first()[i - 1]);
            }
        }
        assert(a =~= b);
    }
}

pub proof fn lemma_lex_le_trans(a: Seq<u8>, b: Seq<u8>, c: Seq<u8>)
    requires
        lex_le(a, b),
        lex_le(b, c),
    ensures
        lex_le(a, c),
    decreases a.len(),
{
    if a.len() > 0 && b.len() > 0 && c.len() > 0 && a[0] == b[0] && b[0] == c[0] {
        lemma_lex_le_trans(a.drop_first(), b.drop_first(), c.drop_first());
    }
}

/// The order's algebra, quantified for use under `sorted_by`.
pub proof fn lemma_lex_le_properties()
    ensures
        forall|a: Seq<u8>| #[trigger] lex_le(a, a),
        forall|a: Seq<u8>, b: Seq<u8>| #[trigger] lex_le(a, b) || #[trigger] lex_le(b, a),
        forall|a: Seq<u8>, b: Seq<u8>| #[trigger] lex_le(a, b) && lex_le(b, a) ==> a == b,
        forall|a: Seq<u8>, b: Seq<u8>, c: Seq<u8>|
            #[trigger] lex_le(a, b) && #[trigger] lex_le(b, c) ==> lex_le(a, c),
{
    assert forall|a: Seq<u8>| #[trigger] lex_le(a, a) by {
        lemma_lex_le_refl(a);
    }
    assert forall|a: Seq<u8>, b: Seq<u8>| #[trigger] lex_le(a, b) || #[trigger] lex_le(b, a) by {
        lemma_lex_le_total(a, b);
    }
    assert forall|a: Seq<u8>, b: Seq<u8>| #[trigger] lex_le(a, b) && lex_le(b, a) implies a == b by {
        lemma_lex_le_antisym(a, b);
    }
    assert forall|a: Seq<u8>, b: Seq<u8>, c: Seq<u8>|
        #[trigger] lex_le(a, b) && #[trigger] lex_le(b, c) implies lex_le(a, c) by {
        lemma_lex_le_trans(a, b, c);
    }
}

/// `lex_le` is a total ordering in the sense of `vstd::relations`.
pub proof fn lemma_lex_total_ordering()
    ensures
        vstd::relations::total_ordering(lex_leq()),
{
    lemma_lex_le_properties();
    let leq = lex_leq();
    assert forall|a: Seq<u8>| #[trigger] leq(a, a) by {
        assert(lex_le(a, a));
    }
    assert forall|a: Seq<u8>, b: Seq<u8>| #[trigger] leq(a, b) && #[trigger] leq(b, a) implies a
        == b by {
        assert(lex_le(a, b) && lex_le(b, a));
    }
    assert forall|a: Seq<u8>, b: Seq<u8>, c: Seq<u8>|
        #[trigger] leq(a, b) && #[trigger] leq(b, c) implies leq(a, c) by {
        assert(lex_le(a, b) && lex_le(b, c));
        assert(lex_le(a, c));
    }
    assert forall|a: Seq<u8>, b: Seq<u8>| #[trigger] leq(a, b) || #[trigger] leq(b, a) by {
        assert(lex_le(a, b) || lex_le(b, a));
    }
}

/// Equal prefixes do not decide the order: it is settled by the rest.
pub proof fn lemma_lex_le_skip(a: Seq<u8>, b: Seq<u8>, i: int)
    requires
        0 <= i <= a.len(),
        i <= b.len(),
        forall|j: int| 0 <= j < i ==> a[j] == b[j],
    ensures
        lex_le(a, b) == lex_le(a.skip(i), b.skip(i)),
    decreases i,
{
    if i > 0 {
        assert(lex_le(a, b) == lex_le(a.drop_first(), b.drop_first()));
        assert(a.drop_first() =~= a.skip(1));
        assert(b.drop_first() =~= b.skip(1));
        lemma_lex_le_skip(a.skip(1), b.skip(1), i - 1);
        assert(a.skip(1).skip(i - 1) =~= a.skip(i));
        assert(b.skip(1).skip(i - 1) =~= b.skip(i));
    } else {
        assert(a.skip(0) =~= a);
        assert(b.skip(0) =~= b);
    }
}

/// A common prefix never decides the order between its extensions.
pub proof fn lemma_lex_le_common_prefix(c: Seq<u8>, a: Seq<u8>, b: Seq<u8>)
    ensures
        lex_le(c + a, c + b) == lex_le(a, b),
    decreases c.len(),
{
    if c.len() == 0 {
        assert(c + a =~= a);
        assert(c + b =~= b);
    } else {
        assert((c + a)[0] == c[0]);
        assert((c + b)[0] == c[0]);
        assert((c + a).drop_first() =~= c.drop_first() + a);
        assert((c + b).drop_first() =~= c.drop_first() + b);
        lemma_lex_le_common_prefix(c.drop_first(), a, b);
    }
}

/// Lexicographic comparison, executable form.
pub fn bytes_le(a: &Vec<u8>, b: &Vec<u8>) -> (r: bool)
    ensures
        r == lex_le(a@, b@),
{
    let mut i: usize = 0;
    while i < a.len() && i < b.len()
        invariant
            i <= a.len(),
            i <= b.len(),
            forall|j: int| 0 <= j < i ==> a@[j] == b@[j],
        decreases a.len() - i,
    {
        proof {
            lemma_lex_le_skip(a@, b@, i as int);
        }
        if a[i] < b[i] {
            proof {
                assert(a@.skip(i as int)[0] == a@[i as int]);
                assert(b@.skip(i as int)[0] == b@[i as int]);
            }
            return true;
        }
        if a[i] > b[i] {
            proof {
                assert(a@.skip(i as int)[0] == a@[i as int]);
                assert(b@.skip(i as int)[0] == b@[i as int]);
            }
            return false;
        }
        i = i + 1;
    }
    proof {
        lemma_lex_le_skip(a@, b@, i as int);
        if i == a@.len() {
            assert(a@.skip(i as int) =~= Seq::<u8>::empty());
        } else {
            assert(b@.skip(i as int) =~= Seq::<u8>::empty());
            assert(a@.skip(i as int).len() > 0);
        }
    }
    a.len() <= b.len()
}

/// The byte strings a vector of paths stands for.
pub open spec fn path_views(s: Seq<Vec<u8>>) -> Seq<Seq<u8>> {
    s.map_values(|v: Vec<u8>| v@)
}

/// Two sorted path sequences holding the same paths are the same sequence:
/// the order in which the paths were gathered can never change the result.
pub proof fn lemma_sorted_unique(a: Seq<Seq<u8>>, b: Seq<Seq<u8>>)
    requires
        sorted_by(a, lex_leq()),
        sorted_by(b, lex_leq()),
        a.to_multiset() == b.to_multiset(),
    ensures
        a == b,
    decreases a.len(),
{
    broadcast use vstd::seq_lib::group_to_multiset_ensures;

    lemma_lex_le_properties();
    assert(a.to_multiset().len() == a.len());
    assert(b.to_multiset().len() == b.len());
    if a.len() == 0 {
        assert(b.len() == 0);
        assert(a =~= b);
    } else {
        assert(b.len() == a.len());
        assert(a.contains(a[0]));
        assert(b.to_multiset().count(a[0]) > 0);
        assert(b.contains(a[0]));
        assert(a.to_multiset().count(b[0]) > 0);
        assert(a.contains(b[0]));
        let ja = choose|j: int| 0 <= j < b.len() && b[j] == a[0];
        let jb = choose|j: int| 0 <= j < a.len() && a[j] == b[0];
        assert(lex_le(b[0], a[0])) by {
            if ja > 0 {
                assert(lex_leq()(b[0], b[ja]));
            }
        }
        assert(lex_le(a[0], b[0])) by {
            if jb > 0 {
                assert(lex_leq()(a[0], a[jb]));
            }
        }
        assert(a[0] == b[0]);
        let ta = a.drop_first();
        let tb = b.drop_first();
        assert(a.remove(0) =~= ta);
        assert(b.remove(0) =~= tb);
        assert(ta.to_multiset() == a.to_multiset().remove(a[0]));
        assert(tb.to_multiset() == b.to_multiset().remove(b[0]));
        assert(sorted_by(ta, lex_leq())) by {
            assert forall|i: int, j: int| 0 <= i < j < ta.len() implies #[trigger] lex_leq()(
                ta[i],
                ta[j],
            ) by {
                assert(lex_leq()(a[i + 1], a[j + 1]));
            }
        }
        assert(sorted_by(tb, lex_leq())) by {
            assert forall|i: int, j: int| 0 <= i < j < tb.len() implies #[trigger] lex_leq()(
                tb[i],
                tb[j],
            ) by {
                assert(lex_leq()(b[i + 1], b[j + 1]));
            }
        }
        lemma_sorted_unique(ta, tb);
        assert forall|i: int| 0 <= i < a.len() implies a[i] == b[i] by {
            if i > 0 {
                assert(a[i] == ta[i - 1]);
                assert(b[i] == tb[i - 1]);
            }
        }
        assert(a =~= b);
    }
}

/// Inserting at `j` inserts into the multiset.
proof fn lemma_insert_to_multiset(s: Seq<Seq<u8>>, j: int, x: Seq<u8>)
    requires
        0 <= j <= s.len(),
    ensures
        s.insert(j, x).to_multiset() == s.to_multiset().insert(x),
{
    broadcast use vstd::seq_lib::group_to_multiset_ensures;

    let s2 = s.insert(j, x);
    assert(s2[j] == x);
    assert(s2.remove(j) =~= s);
    assert(s2.to_multiset().remove(x) == s.to_multiset());
    assert(s2.contains(x));
    assert(s2.to_multiset().count(x) > 0);
    assert(s2.to_multiset() =~= s.to_multiset().insert(x));
}

/// Sorts paths into lexicographic order. The result is exactly the
/// mathematical sort of the input.
pub fn sort_paths(input: Vec<Vec<u8>>) -> (r: Vec<Vec<u8>>)
    ensures
        path_views(r@) == path_views(input@).sort_by(lex_leq()),
        path_views(r@).to_multiset() == path_views(input@).to_multiset(),
        sorted_by(path_views(r@), lex_leq()),
{
    broadcast use vstd::seq_lib::group_to_multiset_ensures;

    let ghost goal = path_views(input@);
    let mut rest = input;
    let mut out: Vec<Vec<u8>> = Vec::new();
    while rest.len() > 0
        invariant
            sorted_by(path_views(out@), lex_leq()),
            path_views(out@).to_multiset().add(path_views(rest@).to_multiset())
                == goal.to_multiset(),
        decreases rest.len(),
    {
        proof {
            broadcast use vstd::seq_lib::group_to_multiset_ensures;

            lemma_lex_le_properties();
        }
        let ghost prev_rest = rest@;
        let x = match rest.pop() {
            Some(v) => v,
            None => {
                proof {
                    assert(false);
                }
                Vec::new()
            },
        };
        proof {
            assert(path_views(prev_rest) =~= path_views(rest@).push(x@));
            assert(path_views(prev_rest).to_multiset() == path_views(rest@).to_multiset().insert(
                x@,
            ));
        }
        let ghost prev_out = path_views(out@);
        let mut j: usize = 0;
        while j < out.len() && bytes_le(&out[j], &x)
            invariant
                j <= out.len(),
                forall|k: int| 0 <= k < j ==> lex_le(path_views(out@)[k], x@),
            decreases out.len() - j,
        {
            j = j + 1;
        }
        proof {
            lemma_lex_le_properties();
            if j < out.len() {
                assert(lex_le(x@, path_views(out@)[j as int]));
            }
        }
        out.insert(j, x);
        proof {
            assert(path_views(out@) =~= prev_out.insert(j as int, x@));
            lemma_insert_to_multiset(prev_out, j as int, x@);
            assert(sorted_by(path_views(out@), lex_leq())) by {
                let s = path_views(out@);
                assert forall|i1: int, i2: int| 0 <= i1 < i2 < s.len() implies #[trigger] lex_leq()(
                    s[i1],
                    s[i2],
                ) by {
                    let ji = j as int;
                    if i2 < ji {
                        assert(lex_leq()(prev_out[i1], prev_out[i2]));
                    } else if i1 > ji {
                        assert(lex_leq()(prev_out[i1 - 1], prev_out[i2 - 1]));
                    } else if i1 == ji {
                        // s[i1] == x@ and x@ precedes everything from ji on
                        if i2 > ji {
                            assert(s[i2] == prev_out[i2 - 1]);
                            assert(lex_le(x@, prev_out[ji]));
                            if i2 - 1 > ji {
                                assert(lex_leq()(prev_out[ji], prev_out[i2 - 1]));
                            }
                        }
                    } else if i2 == ji {
                        assert(s[i1] == prev_out[i1]);
                        assert(lex_le(prev_out[i1], x@));
                    } else {
                        // i1 < ji < i2
                        assert(s[i1] == prev_out[i1]);
                        assert(s[i2] == prev_out[i2 - 1]);
                        assert(lex_le(prev_out[i1], x@));
                        if i2 - 1 == ji {
                            assert(lex_le(x@, prev_out[ji]));
                        } else {
                            assert(lex_le(x@, prev_out[ji]));
                            assert(lex_leq()(prev_out[ji], prev_out[i2 - 1]));
                        }
                    }
                }
            }
        }
    }
    proof {
        assert(path_views(rest@).to_multiset() =~= Multiset::<Seq<u8>>::empty()) by {
            assert(path_views(rest@) =~= Seq::<Seq<u8>>::empty());
        }
        assert(path_views(out@).to_multiset() =~= goal.to_multiset());
        lemma_lex_total_ordering();
        goal.lemma_sort_by_ensures(lex_leq());
        lemma_sorted_unique(path_views(out@), goal.sort_by(lex_leq()));
    }
    out
}

} // verus!
