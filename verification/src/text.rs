use vstd::prelude::*;

verus! {

broadcast use vstd::string::group_string_axioms;

/// The characters of a string slice, in order.
pub fn chars_of(s: &str) -> (cs: Vec<char>)
    ensures
        cs@ == s@,
{
    let mut cs: Vec<char> = Vec::new();
    for c in it: s.chars()
        invariant
            it.seq() == s@,
            cs@ == it.seq().take(it.index()),
    {
        cs.push(c);
    }
    cs
}

} // verus!

verus! {

/// `String: FromIterator<char>`: the string made of the given characters.
#[verifier::external_body]
pub(crate) fn string_from_chars(cs: &[char]) -> (res: String)
    ensures
        res@ == cs@,
{
    cs.iter().collect()
}

/// The position of the first `c` in `cs`, if there is one.
pub open spec fn find_char(cs: Seq<char>, c: char) -> Option<int>
    decreases cs.len(),
{
    if cs.len() == 0 {
        None
    } else if cs[0] == c {
        Some(0)
    } else {
        match find_char(cs.drop_first(), c) {
            Some(i) => Some(i + 1),
            None => None,
        }
    }
}

pub proof fn lemma_find_char(cs: Seq<char>, c: char)
    ensures
        find_char(cs, c) matches Some(i) ==> {
            &&& 0 <= i < cs.len()
            &&& cs[i] == c
            &&& forall|j: int| 0 <= j < i ==> cs[j] != c
        },
        find_char(cs, c) is None ==> forall|j: int| 0 <= j < cs.len() ==> cs[j] != c,
    decreases cs.len(),
{
    if cs.len() > 0 {
        lemma_find_char(cs.drop_first(), c);
        if cs[0] != c {
            assert forall|j: int| 1 <= j < cs.len() implies cs[j] == cs.drop_first()[j - 1] by {}
        }
    }
}

/// Characterises `find_char` by its properties.
pub proof fn lemma_find_char_is(cs: Seq<char>, c: char, r: Option<int>)
    requires
        r matches Some(i) ==> {
            &&& 0 <= i < cs.len()
            &&& cs[i] == c
            &&& forall|j: int| 0 <= j < i ==> cs[j] != c
        },
        r is None ==> forall|j: int| 0 <= j < cs.len() ==> cs[j] != c,
    ensures
        find_char(cs, c) == r,
{
    lemma_find_char(cs, c);
    match find_char(cs, c) {
        Some(i) => {
            match r {
                Some(k) => {
                    if k < i {
                        assert(cs[k] != c);
                    }
                    if i < k {
                        assert(cs[i] != c);
                    }
                },
                None => {
                    assert(cs[i] != c);
                },
            }
        },
        None => {
            if let Some(k) = r {
                assert(cs[k] != c);
            }
        },
    }
}

/// The position of the first `c` in `cs`.
pub fn find_char_in(cs: &[char], c: char) -> (res: Option<usize>)
    ensures
        match res {
            Some(i) => find_char(cs@, c) == Some(i as int),
            None => find_char(cs@, c) is None,
        },
        res matches Some(i) ==> i < cs.len() && cs@[i as int] == c,
{
    let mut i: usize = 0;
    while i < cs.len()
        invariant
            0 <= i <= cs@.len(),
            forall|j: int| 0 <= j < i ==> cs@[j] != c,
        decreases cs@.len() - i,
    {
        if cs[i] == c {
            proof {
                lemma_find_char_is(cs@, c, Some(i as int));
            }
            return Some(i);
        }
        i = i + 1;
    }
    proof {
        lemma_find_char_is(cs@, c, None);
    }
    None
}

} // verus!
