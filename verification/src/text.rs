use vstd::prelude::*;

verus! {

/// The whitespace characters that [`trim`] strips from the ends of a token.
pub open spec fn is_space(c: char) -> bool {
    c == ' ' || c == '\t' || c == '\n' || c == '\r'
}

/// `s` without its leading whitespace.
pub open spec fn ltrim(s: Seq<char>) -> Seq<char>
    decreases s.len(),
{
    if s.len() > 0 && is_space(s[0]) {
        ltrim(s.drop_first())
    } else {
        s
    }
}

/// `s` without its trailing whitespace.
pub open spec fn rtrim(s: Seq<char>) -> Seq<char>
    decreases s.len(),
{
    if s.len() > 0 && is_space(s.last()) {
        rtrim(s.drop_last())
    } else {
        s
    }
}

/// `s` without leading and trailing whitespace.
pub open spec fn trim(s: Seq<char>) -> Seq<char> {
    rtrim(ltrim(s))
}

/// The index of the first occurrence of `c` in `s`, or `-1` if `c` does
/// not occur.
pub open spec fn first_index_of(s: Seq<char>, c: char) -> int
    decreases s.len(),
{
    if s.len() == 0 {
        -1
    } else if s[0] == c {
        0
    } else if first_index_of(s.drop_first(), c) == -1 {
        -1
    } else {
        first_index_of(s.drop_first(), c) + 1
    }
}

pub proof fn lemma_first_index_of_props(s: Seq<char>, c: char)
    ensures
        first_index_of(s, c) == -1 ==> (forall|k: int| 0 <= k < s.len() ==> s[k] != c),
        first_index_of(s, c) != -1 ==> {
            let j = first_index_of(s, c);
            &&& 0 <= j < s.len()
            &&& s[j] == c
            &&& forall|k: int| 0 <= k < j ==> s[k] != c
        },
    decreases s.len(),
{
    if s.len() > 0 && s[0] != c {
        let st = s.drop_first();
        lemma_first_index_of_props(st, c);
        if first_index_of(s, c) == -1 {
            assert forall|k: int| 0 <= k < s.len() implies s[k] != c by {
                if k > 0 {
                    assert(st[k - 1] == s[k]);
                }
            }
        } else {
            let j = first_index_of(s, c);
            assert(st[j - 1] == s[j]);
            assert forall|k: int| 0 <= k < j implies s[k] != c by {
                if k > 0 {
                    assert(st[k - 1] == s[k]);
                }
            }
        }
    }
}

/// The first occurrence characterizes `first_index_of`: if nothing before
/// `j` is `c` and `s[j]` is `c`, then `j` is the first index.
pub proof fn lemma_first_index_of_found(s: Seq<char>, c: char, j: int)
    requires
        0 <= j < s.len(),
        s[j] == c,
        forall|k: int| 0 <= k < j ==> s[k] != c,
    ensures
        first_index_of(s, c) == j,
    decreases j,
{
    if j > 0 {
        lemma_first_index_of_found(s.drop_first(), c, j - 1);
    }
}

pub proof fn lemma_first_index_of_none(s: Seq<char>, c: char)
    requires
        forall|k: int| 0 <= k < s.len() ==> s[k] != c,
    ensures
        first_index_of(s, c) == -1,
    decreases s.len(),
{
    if s.len() > 0 {
        lemma_first_index_of_none(s.drop_first(), c);
    }
}

/// Stripping one leading space commutes with dropping it.
pub proof fn lemma_ltrim_step(s: Seq<char>, a: int)
    requires
        0 <= a < s.len(),
        is_space(s[a]),
    ensures
        ltrim(s.skip(a)) == ltrim(s.skip(a + 1)),
{
    assert(s.skip(a).len() > 0);
    assert(s.skip(a)[0] == s[a]);
    assert(s.skip(a).drop_first() =~= s.skip(a + 1));
}

/// Whether two string slices hold the same characters.
pub fn str_eq(a: &str, b: &str) -> (r: bool)
    ensures
        r == (a@ == b@),
{
    let sa: String = a.to_owned();
    let sb: String = b.to_owned();
    sa == sb
}

/// The index of the first occurrence of `c` in `s`, if any.
pub fn find_char(s: &str, c: char) -> (r: Option<usize>)
    ensures
        match r {
            Some(j) => first_index_of(s@, c) == j as int,
            None => first_index_of(s@, c) == -1,
        },
{
    let n = s.unicode_len();
    let mut i: usize = 0;
    while i < n
        invariant
            i <= n,
            n == s@.len(),
            forall|k: int| 0 <= k < i ==> s@[k] != c,
        decreases n - i,
    {
        if s.get_char(i) == c {
            proof {
                lemma_first_index_of_found(s@, c, i as int);
            }
            return Some(i);
        }
        i += 1;
    }
    proof {
        lemma_first_index_of_none(s@, c);
    }
    None
}

fn is_space_exec(c: char) -> (r: bool)
    ensures
        r == is_space(c),
{
    c == ' ' || c == '\t' || c == '\n' || c == '\r'
}

/// `s` without leading and trailing whitespace, as a subslice of `s`.
pub fn trim_str<'a>(s: &'a str) -> (r: &'a str)
    ensures
        r@ == trim(s@),
{
    let n = s.unicode_len();
    proof {
        assert(s@.skip(0) =~= s@);
    }
    let mut a: usize = 0;
    while a < n && is_space_exec(s.get_char(a))
        invariant
            a <= n,
            n == s@.len(),
            ltrim(s@) == ltrim(s@.skip(a as int)),
        decreases n - a,
    {
        proof {
            lemma_ltrim_step(s@, a as int);
        }
        a += 1;
    }
    proof {
        assert(s@.skip(0) =~= s@);
        if a < n {
            assert(s@.skip(a as int)[0] == s@[a as int]);
            assert(ltrim(s@.skip(a as int)) == s@.skip(a as int));
        } else {
            assert(s@.skip(a as int) =~= Seq::<char>::empty());
            assert(ltrim(s@) =~= Seq::<char>::empty());
        }
        assert(s@.skip(a as int) =~= s@.subrange(a as int, n as int));
    }
    let mut b: usize = n;
    while b > a && is_space_exec(s.get_char(b - 1))
        invariant
            a <= b <= n,
            n == s@.len(),
            ltrim(s@) == ltrim(s@.skip(a as int)),
            rtrim(s@.subrange(a as int, n as int)) == rtrim(s@.subrange(a as int, b as int)),
        decreases b,
    {
        proof {
            let t = s@.subrange(a as int, b as int);
            assert(t.len() > 0);
            assert(t.last() == s@[b - 1]);
            assert(t.drop_last() =~= s@.subrange(a as int, b as int - 1));
        }
        b -= 1;
    }
    proof {
        let t = s@.subrange(a as int, b as int);
        if b > a {
            assert(t.last() == s@[b - 1]);
            assert(rtrim(t) == t);
        } else {
            assert(t =~= Seq::<char>::empty());
        }
        if a < n {
            assert(ltrim(s@) == s@.skip(a as int));
            assert(s@.skip(a as int) =~= s@.subrange(a as int, n as int));
        } else {
            assert(ltrim(s@) =~= Seq::<char>::empty());
            assert(s@.subrange(a as int, n as int) =~= Seq::<char>::empty());
        }
        assert(trim(s@) == rtrim(s@.subrange(a as int, n as int)));
    }
    s.substring_char(a, b)
}

} // verus!
