//! Verified character-sequence utilities: white-space classification,
//! trimming, and vector subranges.

use vstd::prelude::*;

verus! {

/// The Unicode white-space code points, exactly the characters that
/// `char::is_whitespace` accepts.
pub open spec fn is_space(c: char) -> bool {
    let u = c as u32;
    (9 <= u && u <= 13) || u == 32 || u == 0x85 || u == 0xA0 || u == 0x1680 || (0x2000 <= u && u
        <= 0x200A) || u == 0x2028 || u == 0x2029 || u == 0x202F || u == 0x205F || u == 0x3000
}

/// Executable white-space test, equal to the spec-level [`is_space`].
pub fn is_space_char(c: char) -> (r: bool)
    ensures
        r == is_space(c),
{
    let u = c as u32;
    (9 <= u && u <= 13) || u == 32 || u == 0x85 || u == 0xA0 || u == 0x1680 || (0x2000 <= u && u
        <= 0x200A) || u == 0x2028 || u == 0x2029 || u == 0x202F || u == 0x205F || u == 0x3000
}

/// The sequence with its leading white space removed.
pub open spec fn trim_front(s: Seq<char>) -> Seq<char>
    decreases s.len(),
{
    if s.len() > 0 && is_space(s[0]) {
        trim_front(s.skip(1))
    } else {
        s
    }
}

/// The sequence with its trailing white space removed.
pub open spec fn trim_back(s: Seq<char>) -> Seq<char>
    decreases s.len(),
{
    if s.len() > 0 && is_space(s.last()) {
        trim_back(s.drop_last())
    } else {
        s
    }
}

/// The sequence with white space removed from both ends.
pub open spec fn trim_spec(s: Seq<char>) -> Seq<char> {
    trim_back(trim_front(s))
}

/// `s` starts with the prefix `p`.
pub open spec fn has_prefix(s: Seq<char>, p: Seq<char>) -> bool {
    p.len() <= s.len() && s.take(p.len() as int) == p
}

proof fn lemma_trim_front_is_skip(s: Seq<char>, a: int)
    requires
        0 <= a <= s.len(),
        forall|j: int| 0 <= j < a ==> is_space(#[trigger] s[j]),
        a < s.len() ==> !is_space(s[a]),
    ensures
        trim_front(s) == s.skip(a),
    decreases a,
{
    if a == 0 {
        assert(s.skip(0) =~= s);
    } else {
        assert(is_space(s[0]));
        lemma_trim_front_is_skip(s.skip(1), a - 1);
        assert(s.skip(1).skip(a - 1) =~= s.skip(a));
    }
}

proof fn lemma_trim_back_is_take(s: Seq<char>, e: int)
    requires
        0 <= e <= s.len(),
        forall|j: int| e <= j < s.len() ==> is_space(#[trigger] s[j]),
        e > 0 ==> !is_space(s[e - 1]),
    ensures
        trim_back(s) == s.take(e),
    decreases s.len(),
{
    if e == s.len() {
        assert(s.take(e) =~= s);
    } else {
        assert(is_space(s.last()));
        lemma_trim_back_is_take(s.drop_last(), e);
        assert(s.drop_last().take(e) =~= s.take(e));
    }
}

/// Copies `v[from..to]` into a fresh vector.
pub fn subrange_vec<T: Copy>(v: &Vec<T>, from: usize, to: usize) -> (r: Vec<T>)
    requires
        from <= to <= v.len(),
    ensures
        r@ == v@.subrange(from as int, to as int),
{
    let mut r: Vec<T> = Vec::new();
    let mut i: usize = from;
    while i < to
        invariant
            from <= i <= to <= v.len(),
            r@ == v@.subrange(from as int, i as int),
        decreases to - i,
    {
        r.push(v[i]);
        i = i + 1;
        proof {
            assert(v@.subrange(from as int, i as int) =~= v@.subrange(from as int, i - 1).push(
                v@[i - 1],
            ));
        }
    }
    r
}

/// Removes white space from both ends of `v`.
pub fn trim_chars(v: &Vec<char>) -> (r: Vec<char>)
    ensures
        r@ == trim_spec(v@),
{
    let mut a: usize = 0;
    loop
        invariant
            a <= v.len(),
            forall|j: int| 0 <= j < a ==> is_space(#[trigger] v@[j]),
        ensures
            a <= v.len(),
            forall|j: int| 0 <= j < a ==> is_space(#[trigger] v@[j]),
            a < v.len() ==> !is_space(v@[a as int]),
        decreases v.len() - a,
    {
        if a == v.len() {
            break ;
        }
        if !is_space_char(v[a]) {
            break ;
        }
        a = a + 1;
    }
    let mut e: usize = v.len();
    loop
        invariant
            a <= e <= v.len(),
            forall|j: int| e <= j < v.len() ==> is_space(#[trigger] v@[j]),
        ensures
            a <= e <= v.len(),
            forall|j: int| e <= j < v.len() ==> is_space(#[trigger] v@[j]),
            e > a ==> !is_space(v@[e - 1]),
        decreases e,
    {
        if e == a {
            break ;
        }
        if !is_space_char(v[e - 1]) {
            break ;
        }
        e = e - 1;
    }
    proof {
        lemma_trim_front_is_skip(v@, a as int);
        let tail = v@.skip(a as int);
        assert forall|j: int| (e - a) <= j < tail.len() implies is_space(#[trigger] tail[j]) by {
            assert(tail[j] == v@[a + j]);
        }
        if e > a {
            assert(tail[e - a - 1] == v@[e - 1]);
        }
        lemma_trim_back_is_take(tail, e - a);
        assert(tail.take(e - a) =~= v@.subrange(a as int, e as int));
    }
    subrange_vec(v, a, e)
}

} // verus!
