use vstd::prelude::*;

verus! {

/// Index of the last occurrence of `c` in `s`, or -1 when `c` does not occur.
pub open spec fn last_index_of(s: Seq<char>, c: char) -> int
    decreases s.len(),
{
    if s.len() == 0 {
        -1
    } else if s.last() == c {
        s.len() - 1
    } else {
        last_index_of(s.drop_last(), c)
    }
}

pub open spec fn is_ascii_digit(c: char) -> bool {
    '0' <= c && c <= '9'
}

/// A non-empty run of ASCII decimal digits.
pub open spec fn is_digit_run(s: Seq<char>) -> bool {
    s.len() > 0 && forall|i: int| 0 <= i < s.len() ==> is_ascii_digit(#[trigger] s[i])
}

/// The canonical song name of a raw identifier: when the text after the last
/// `.` is a non-empty run of decimal digits, the part before that `.`;
/// otherwise the identifier itself.
pub open spec fn canonical(s: Seq<char>) -> Seq<char> {
    let k = last_index_of(s, '.');
    if k >= 0 && is_digit_run(s.subrange(k + 1, s.len() as int)) {
        s.subrange(0, k)
    } else {
        s
    }
}

proof fn lemma_last_index_of(s: Seq<char>, c: char)
    ensures
        -1 <= last_index_of(s, c) < s.len(),
        last_index_of(s, c) >= 0 ==> s[last_index_of(s, c)] == c,
        forall|j: int| last_index_of(s, c) < j < s.len() ==> s[j] != c,
    decreases s.len(),
{
    if s.len() > 0 && s.last() != c {
        lemma_last_index_of(s.drop_last(), c);
        assert forall|j: int| last_index_of(s, c) < j < s.len() implies s[j] != c by {
            if j < s.len() - 1 {
                assert(s[j] == s.drop_last()[j]);
            }
        }
    }
}

/// Maps a raw song identifier to its canonical song name.
pub fn canonicalize(raw: &str) -> (r: String)
    ensures
        r@ == canonical(raw@),
{
    let n = raw.unicode_len();
    let mut k: usize = n;
    while k > 0
        invariant
            k <= n,
            n == raw@.len(),
            forall|j: int| k <= j < n ==> raw@[j] != '.',
        ensures
            k <= n,
            forall|j: int| k <= j < n ==> raw@[j] != '.',
            k == 0 || raw@[k - 1] == '.',
        decreases k,
    {
        if raw.get_char(k - 1) == '.' {
            break;
        }
        k = k - 1;
    }
    proof {
        lemma_last_index_of(raw@, '.');
    }
    if k == 0 {
        assert(last_index_of(raw@, '.') == -1);
        return raw.to_owned();
    }
    let dot = k - 1;
    assert(last_index_of(raw@, '.') == dot) by {
        let li = last_index_of(raw@, '.');
        if li > dot {
            assert(raw@[li] != '.');
        }
    }
    if dot + 1 == n {
        assert(raw@.subrange(dot + 1, n as int).len() == 0);
        return raw.to_owned();
    }
    let mut i: usize = dot + 1;
    while i < n
        invariant
            dot + 1 <= i <= n,
            n == raw@.len(),
            last_index_of(raw@, '.') == dot,
            forall|j: int| dot + 1 <= j < i ==> is_ascii_digit(#[trigger] raw@[j]),
        decreases n - i,
    {
        let c = raw.get_char(i);
        if !('0' <= c && c <= '9') {
            assert(!is_digit_run(raw@.subrange(dot + 1, n as int))) by {
                assert(raw@.subrange(dot + 1, n as int)[i - dot - 1] == c);
            }
            return raw.to_owned();
        }
        i = i + 1;
    }
    assert(is_digit_run(raw@.subrange(dot + 1, n as int))) by {
        assert forall|j: int| 0 <= j < raw@.subrange(dot + 1, n as int).len() implies
            is_ascii_digit(#[trigger] raw@.subrange(dot + 1, n as int)[j]) by {
            assert(raw@.subrange(dot + 1, n as int)[j] == raw@[dot + 1 + j]);
        }
    }
    raw.substring_char(0, dot).to_owned()
}

} // verus!
