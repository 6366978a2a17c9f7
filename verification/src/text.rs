//! Strings as contracts speak of them: their order, and texts joined from
//! pieces.

use vstd::prelude::*;
use vstd::relations::*;
use vstd::seq_lib::*;

verus! {

/// The concatenation of all the pieces, in order.
pub open spec fn concat_all(pieces: Seq<Seq<char>>) -> Seq<char>
    decreases pieces.len(),
{
    if pieces.len() == 0 {
        Seq::empty()
    } else {
        concat_all(pieces.drop_last()) + pieces.last()
    }
}

/// The pieces in order, with `sep` between each two neighbours.
pub open spec fn joined(pieces: Seq<Seq<char>>, sep: Seq<char>) -> Seq<char>
    decreases pieces.len(),
{
    if pieces.len() == 0 {
        Seq::empty()
    } else if pieces.len() == 1 {
        pieces[0]
    } else {
        joined(pieces.drop_last(), sep) + sep + pieces.last()
    }
}

/// The view of each string of a list.
pub open spec fn texts(v: Seq<String>) -> Seq<Seq<char>> {
    Seq::new(v.len(), |i: int| v[i]@)
}

/// The order of strings: character by character by code point, a proper
/// prefix before the longer string.
pub open spec fn text_le(a: Seq<char>, b: Seq<char>) -> bool
    decreases a.len(),
{
    if a.len() == 0 {
        true
    } else if b.len() == 0 {
        false
    } else if a[0] != b[0] {
        a[0] < b[0]
    } else {
        text_le(a.skip(1), b.skip(1))
    }
}

/// A string is not after itself.
pub proof fn lemma_text_le_refl(a: Seq<char>)
    ensures
        text_le(a, a),
    decreases a.len(),
{
    if a.len() > 0 {
        lemma_text_le_refl(a.skip(1));
    }
}

/// Two strings of which neither is after the other are equal.
pub proof fn lemma_text_le_antisym(a: Seq<char>, b: Seq<char>)
    requires
        text_le(a, b),
        text_le(b, a),
    ensures
        a == b,
    decreases a.len(),
{
    if a.len() == 0 {
        assert(a =~= b);
    } else {
        lemma_text_le_antisym(a.skip(1), b.skip(1));
        assert(a =~= seq![a[0]] + a.skip(1));
        assert(b =~= seq![b[0]] + b.skip(1));
    }
}

/// The order of strings is transitive.
pub proof fn lemma_text_le_trans(a: Seq<char>, b: Seq<char>, c: Seq<char>)
    requires
        text_le(a, b),
        text_le(b, c),
    ensures
        text_le(a, c),
    decreases a.len(),
{
    if a.len() > 0 && a[0] == b[0] && b[0] == c[0] {
        lemma_text_le_trans(a.skip(1), b.skip(1), c.skip(1));
    }
}

/// Of two strings one is not after the other.
pub proof fn lemma_text_le_connected(a: Seq<char>, b: Seq<char>)
    ensures
        text_le(a, b) || text_le(b, a),
    decreases a.len(),
{
    if a.len() > 0 && b.len() > 0 {
        if a[0] == b[0] {
            lemma_text_le_connected(a.skip(1), b.skip(1));
        }
    }
}

/// The order of strings, as a relation.
pub open spec fn text_order() -> spec_fn(Seq<char>, Seq<char>) -> bool {
    |a: Seq<char>, b: Seq<char>| text_le(a, b)
}

/// The strings of `names` in ascending order.
pub open spec fn sorted_texts(names: Seq<Seq<char>>) -> Seq<Seq<char>> {
    names.sort_by(text_order())
}

/// The order of strings is a total order.
pub proof fn lemma_text_le_total()
    ensures
        total_ordering(text_order()),
{
    let r = text_order();
    assert forall|x: Seq<char>| #[trigger] r(x, x) by {
        lemma_text_le_refl(x);
    }
    assert forall|x: Seq<char>, y: Seq<char>| #[trigger] r(x, y) && #[trigger] r(y, x) implies x == y by {
        lemma_text_le_antisym(x, y);
    }
    assert forall|x: Seq<char>, y: Seq<char>, z: Seq<char>| #[trigger] r(x, y) && #[trigger] r(y, z) implies r(x, z) by {
        lemma_text_le_trans(x, y, z);
    }
    assert forall|x: Seq<char>, y: Seq<char>| #[trigger] r(x, y) || #[trigger] r(y, x) by {
        lemma_text_le_connected(x, y);
    }
}

/// Whether two strings hold the same characters.
pub fn same_text(a: &str, b: &str) -> (res: bool)
    ensures
        res == (a@ == b@),
{
    let n: usize = a.unicode_len();
    if b.unicode_len() != n {
        return false;
    }
    let mut i: usize = 0;
    while i < n
        invariant
            n == a@.len(),
            n == b@.len(),
            i <= n,
            forall|k: int| 0 <= k < i ==> a@[k] == b@[k],
        decreases n - i,
    {
        if a.get_char(i) != b.get_char(i) {
            return false;
        }
        i += 1;
    }
    assert(a@ =~= b@);
    true
}

/// Whether `a` comes before `b` in the order of strings, or equals it.
pub fn text_before(a: &str, b: &str) -> (res: bool)
    ensures
        res == text_le(a@, b@),
{
    let n: usize = a.unicode_len();
    let m: usize = b.unicode_len();
    let mut i: usize = 0;
    assert(a@.skip(0) =~= a@ && b@.skip(0) =~= b@);
    while i < n
        invariant
            n == a@.len(),
            m == b@.len(),
            i <= n,
            i <= m,
            text_le(a@, b@) == text_le(a@.skip(i as int), b@.skip(i as int)),
        decreases n - i,
    {
        if i >= m {
            return false;
        }
        let x: char = a.get_char(i);
        let y: char = b.get_char(i);
        if x != y {
            return x < y;
        }
        assert(a@.skip(i as int).skip(1) =~= a@.skip(i + 1));
        assert(b@.skip(i as int).skip(1) =~= b@.skip(i + 1));
        i += 1;
    }
    true
}

/// The strings of `pieces` in order, as one string.
pub fn concat_strings(pieces: &Vec<String>) -> (res: String)
    ensures
        res@ == concat_all(texts(pieces@)),
{
    let mut res = String::new();
    let mut i: usize = 0;
    assert(texts(pieces@).take(0) =~= Seq::<Seq<char>>::empty());
    while i < pieces.len()
        invariant
            i <= pieces.len(),
            res@ == concat_all(texts(pieces@).take(i as int)),
        decreases pieces.len() - i,
    {
        proof {
            let next = texts(pieces@).take(i + 1);
            assert(next.drop_last() =~= texts(pieces@).take(i as int));
            assert(next.last() == pieces@[i as int]@);
        }
        res.append(pieces[i].as_str());
        i += 1;
    }
    assert(texts(pieces@).take(i as int) =~= texts(pieces@));
    res
}

/// The strings of `pieces` in order, with `sep` between each two neighbours, as
/// one string.
pub fn join_strings(pieces: &Vec<String>, sep: &str) -> (res: String)
    ensures
        res@ == joined(texts(pieces@), sep@),
{
    let mut res = String::new();
    let mut i: usize = 0;
    assert(texts(pieces@).take(0) =~= Seq::<Seq<char>>::empty());
    while i < pieces.len()
        invariant
            i <= pieces.len(),
            res@ == joined(texts(pieces@).take(i as int), sep@),
        decreases pieces.len() - i,
    {
        proof {
            let next = texts(pieces@).take(i + 1);
            assert(next.drop_last() =~= texts(pieces@).take(i as int));
            assert(next.last() == pieces@[i as int]@);
            assert(next[0] == pieces@[0]@);
        }
        if i > 0 {
            res.append(sep);
        }
        res.append(pieces[i].as_str());
        assert(res@ =~= joined(texts(pieces@).take(i + 1), sep@));
        i += 1;
    }
    assert(texts(pieces@).take(i as int) =~= texts(pieces@));
    res
}

/// What the sorted list is: it is in ascending order and holds each string as
/// often as `names` does.
pub proof fn lemma_sorted_texts(names: Seq<Seq<char>>)
    ensures
        sorted_by(sorted_texts(names), text_order()),
        sorted_texts(names).to_multiset() == names.to_multiset(),
        sorted_texts(names).len() == names.len(),
{
    lemma_text_le_total();
    names.lemma_sort_by_ensures(text_order());
    names.to_multiset_ensures();
    sorted_texts(names).to_multiset_ensures();
}

proof fn lemma_insert_sorted(s: Seq<Seq<char>>, p: int, x: Seq<char>)
    requires
        sorted_by(s, text_order()),
        0 <= p <= s.len(),
        forall|k: int| 0 <= k < p ==> text_le(s[k], x),
        p < s.len() ==> !text_le(s[p], x),
    ensures
        sorted_by(s.insert(p, x), text_order()),
        s.insert(p, x).to_multiset() == s.to_multiset().insert(x),
{
    broadcast use vstd::multiset::group_multiset_axioms;

    let t = s.insert(p, x);
    let r = text_order();
    assert forall|k: int| p <= k < s.len() implies text_le(x, s[k]) by {
        lemma_text_le_connected(s[p], x);
        if k > p {
            assert(r(s[p], s[k]));
            lemma_text_le_trans(x, s[p], s[k]);
        }
    }
    assert forall|i: int, j: int| 0 <= i < j < t.len() implies #[trigger] r(t[i], t[j]) by {
        if j < p {
            assert(r(s[i], s[j]));
        } else if j == p {
        } else if i < p {
            assert(r(s[i], s[j - 1]));
        } else if i == p {
        } else {
            assert(r(s[i - 1], s[j - 1]));
        }
    }
    assert(t.remove(p) =~= s);
    t.to_multiset_ensures();
    assert(t[p] == x);
    assert(t.to_multiset().remove(x).insert(x) =~= t.to_multiset());
}

/// A copy of `names` in ascending order.
pub fn sort_names(names: &Vec<String>) -> (res: Vec<String>)
    ensures
        texts(res@) == sorted_texts(texts(names@)),
{
    let mut res: Vec<String> = Vec::new();
    let mut i: usize = 0;
    proof {
        assert(texts(names@).take(0) =~= Seq::<Seq<char>>::empty());
        assert(texts(res@) =~= Seq::<Seq<char>>::empty());
    }
    while i < names.len()
        invariant
            i <= names.len(),
            sorted_by(texts(res@), text_order()),
            texts(res@).to_multiset() == texts(names@).take(i as int).to_multiset(),
        decreases names.len() - i,
    {
        let x: &String = &names[i];
        let mut p: usize = 0;
        while p < res.len() && text_before(res[p].as_str(), x.as_str())
            invariant
                p <= res.len(),
                forall|k: int| 0 <= k < p ==> text_le(texts(res@)[k], x@),
            decreases res.len() - p,
        {
            p += 1;
        }
        proof {
            lemma_insert_sorted(texts(res@), p as int, x@);
            let next = texts(names@).take(i + 1);
            assert(next =~= texts(names@).take(i as int).push(x@));
            texts(names@).take(i as int).to_multiset_ensures();
        }
        let ghost before = texts(res@);
        res.insert(p, x.clone());
        assert(texts(res@) =~= before.insert(p as int, x@));
        i += 1;
    }
    proof {
        assert(texts(names@).take(i as int) =~= texts(names@));
        lemma_sorted_texts(texts(names@));
        lemma_text_le_total();
        lemma_sorted_unique(texts(res@), sorted_texts(texts(names@)), text_order());
    }
    res
}

} // verus!
