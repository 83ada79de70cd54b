use vstd::prelude::*;

verus! {

/// Lexicographic order on texts by code point, which is the order of their
/// UTF-8 bytes and so the order of `String`'s `Ord`.
pub open spec fn lex_lt(a: Seq<char>, b: Seq<char>) -> bool
    decreases a.len(),
{
    if b.len() == 0 {
        false
    } else if a.len() == 0 {
        true
    } else if a[0] != b[0] {
        (a[0] as int) < (b[0] as int)
    } else {
        lex_lt(a.drop_first(), b.drop_first())
    }
}

/// Every element comes strictly before each later one.
pub open spec fn strictly_sorted(s: Seq<Seq<char>>) -> bool {
    forall|i: int, j: int| 0 <= i < j < s.len() ==> lex_lt(#[trigger] s[i], #[trigger] s[j])
}

/// The character sequences of a list of strings, in order.
pub open spec fn texts(v: Seq<String>) -> Seq<Seq<char>> {
    v.map_values(|s: String| s@)
}

pub proof fn lemma_lex_irreflexive(a: Seq<char>)
    ensures
        !lex_lt(a, a),
    decreases a.len(),
{
    if a.len() > 0 {
        lemma_lex_irreflexive(a.drop_first());
    }
}

pub proof fn lemma_lex_total(a: Seq<char>, b: Seq<char>)
    ensures
        a == b || lex_lt(a, b) || lex_lt(b, a),
    decreases a.len(),
{
    if a.len() > 0 && b.len() > 0 && a[0] == b[0] {
        lemma_lex_total(a.drop_first(), b.drop_first());
        if a.drop_first() == b.drop_first() {
            assert(a =~= seq![a[0]] + a.drop_first());
            assert(b =~= seq![b[0]] + b.drop_first());
        }
    } else if a.len() == 0 && b.len() == 0 {
        assert(a =~= b);
    } else if a.len() > 0 && b.len() > 0 {
        let (x, y) = (a[0], b[0]);
        assert(x != y ==> (x as int) != (y as int));
    }
}

pub proof fn lemma_lex_transitive(a: Seq<char>, b: Seq<char>, c: Seq<char>)
    requires
        lex_lt(a, b),
        lex_lt(b, c),
    ensures
        lex_lt(a, c),
    decreases a.len(),
{
    if a.len() > 0 && a[0] == b[0] && b[0] == c[0] {
        lemma_lex_transitive(a.drop_first(), b.drop_first(), c.drop_first());
    }
}

pub proof fn lemma_lex_asymmetric(a: Seq<char>, b: Seq<char>)
    requires
        lex_lt(a, b),
    ensures
        !lex_lt(b, a),
{
    if lex_lt(b, a) {
        lemma_lex_transitive(a, b, a);
        lemma_lex_irreflexive(a);
    }
}

proof fn lemma_lex_skip(a: Seq<char>, b: Seq<char>, i: int)
    requires
        0 <= i < a.len(),
        i < b.len(),
        a[i] == b[i],
    ensures
        lex_lt(a.skip(i), b.skip(i)) == lex_lt(a.skip(i + 1), b.skip(i + 1)),
{
    assert(a.skip(i).drop_first() =~= a.skip(i + 1));
    assert(b.skip(i).drop_first() =~= b.skip(i + 1));
}

/// Whether `a` comes strictly before `b` in lexicographic order.
pub fn text_less(a: &str, b: &str) -> (r: bool)
    ensures
        r == lex_lt(a@, b@),
{
    let la = a.unicode_len();
    let lb = b.unicode_len();
    let mut i: usize = 0;
    assert(a@.skip(0) =~= a@);
    assert(b@.skip(0) =~= b@);
    while i < la && i < lb && a.get_char(i) == b.get_char(i)
        invariant
            i <= la,
            i <= lb,
            la == a@.len(),
            lb == b@.len(),
            lex_lt(a@, b@) == lex_lt(a@.skip(i as int), b@.skip(i as int)),
        decreases la - i,
    {
        proof {
            lemma_lex_skip(a@, b@, i as int);
        }
        i = i + 1;
    }
    if i == lb {
        false
    } else if i == la {
        true
    } else {
        let ca = a.get_char(i);
        let cb = b.get_char(i);
        (ca as u32) < (cb as u32)
    }
}

/// Inserts `name` into a strictly sorted list of names unless it is
/// already there; the list stays strictly sorted.
pub fn insert_sorted(names: &mut Vec<String>, name: String)
    requires
        strictly_sorted(texts(old(names)@)),
    ensures
        strictly_sorted(texts(final(names)@)),
        texts(final(names)@).to_set() == texts(old(names)@).to_set().insert(name@),
{
    let ghost old_t = texts(names@);
    let mut i: usize = 0;
    while i < names.len() && text_less(names[i].as_str(), name.as_str())
        invariant
            i <= names@.len(),
            names@ == old(names)@,
            old_t == texts(names@),
            strictly_sorted(old_t),
            forall|j: int| 0 <= j < i ==> lex_lt(#[trigger] old_t[j], name@),
        decreases names@.len() - i,
    {
        i = i + 1;
    }
    if i < names.len() && names[i] == name {
        assert(texts(names@).to_set() =~= old_t.to_set().insert(name@)) by {
            assert(old_t[i as int] == name@);
        }
        return;
    }
    proof {
        if i < names@.len() {
            lemma_lex_total(old_t[i as int], name@);
        }
    }
    names.insert(i, name);
    let ghost new_t = texts(names@);
    assert(new_t =~= old_t.insert(i as int, name@));
    assert forall|p: int, q: int| 0 <= p < q < new_t.len() implies lex_lt(#[trigger] new_t[p], #[trigger] new_t[q]) by {
        if q == i {
        } else if p == i {
            if q - 1 > i {
                lemma_lex_transitive(name@, old_t[i as int], old_t[q - 1]);
            }
        } else if p < i && q > i {
            if q - 1 > i {
                lemma_lex_transitive(name@, old_t[i as int], old_t[q - 1]);
            }
            lemma_lex_transitive(old_t[p], name@, old_t[q - 1]);
        }
    }
    assert(new_t.to_set() =~= old_t.to_set().insert(name@)) by {
        assert forall|x: Seq<char>| new_t.to_set().contains(x) <==> old_t.to_set().insert(name@).contains(x) by {
            if new_t.contains(x) {
                let p = choose|p: int| 0 <= p < new_t.len() && new_t[p] == x;
                if p < i {
                    assert(old_t[p] == x);
                } else if p > i {
                    assert(old_t[p - 1] == x);
                }
            }
            if old_t.contains(x) {
                let p = choose|p: int| 0 <= p < old_t.len() && old_t[p] == x;
                if p < i {
                    assert(new_t[p] == x);
                } else {
                    assert(new_t[p + 1] == x);
                }
            }
            if x == name@ {
                assert(new_t[i as int] == x);
            }
        }
    }
}

} // verus!
