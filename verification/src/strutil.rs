use vstd::prelude::*;

verus! {

/// Whether `n` occurs in `s` as a contiguous run of characters.
pub open spec fn contains_seq(s: Seq<char>, n: Seq<char>) -> bool {
    exists|i: int| 0 <= i <= s.len() - n.len() && #[trigger] s.subrange(i, i + n.len()) == n
}

/// Character-for-character string equality.
pub fn str_eq(a: &str, b: &str) -> (r: bool)
    ensures
        r == (a@ == b@),
{
    let na = a.unicode_len();
    let nb = b.unicode_len();
    if na != nb {
        return false;
    }
    let mut i: usize = 0;
    while i < na
        invariant
            na == a@.len(),
            na == b@.len(),
            i <= na,
            forall|j: int| 0 <= j < i ==> a@[j] == b@[j],
        decreases na - i,
    {
        if a.get_char(i) != b.get_char(i) {
            return false;
        }
        i = i + 1;
    }
    proof {
        assert(a@ =~= b@);
    }
    true
}

/// Substring search: whether the needle occurs anywhere in the haystack.
pub fn str_contains(s: &str, n: &str) -> (r: bool)
    ensures
        r == contains_seq(s@, n@),
{
    let ns = s.unicode_len();
    let nn = n.unicode_len();
    if nn > ns {
        return false;
    }
    if nn == 0 {
        proof {
            assert(s@.subrange(0, 0 + n@.len() as int) =~= n@);
        }
        return true;
    }
    let mut i: usize = 0;
    while i <= ns - nn
        invariant
            ns == s@.len(),
            nn == n@.len(),
            1 <= nn <= ns,
            i <= ns - nn + 1,
            forall|k: int| 0 <= k < i ==> #[trigger] s@.subrange(k, k + n@.len()) != n@,
        decreases ns - nn - i + 1,
    {
        let mut j: usize = 0;
        let mut matched = true;
        while matched && j < nn
            invariant
                ns == s@.len(),
                nn == n@.len(),
                i + nn <= ns,
                j <= nn,
                matched ==> forall|jj: int| 0 <= jj < j ==> s@[i + jj] == n@[jj],
                !matched ==> s@.subrange(i as int, i as int + n@.len()) != n@,
            decreases nn - j,
        {
            if s.get_char(i + j) != n.get_char(j) {
                proof {
                    let sub = s@.subrange(i as int, i as int + n@.len());
                    assert(sub[j as int] == s@[i as int + j as int]);
                }
                matched = false;
            }
            j = j + 1;
        }
        if matched {
            proof {
                assert(s@.subrange(i as int, i as int + n@.len()) =~= n@);
            }
            return true;
        }
        i = i + 1;
    }
    proof {
        assert(forall|k: int| 0 <= k <= s@.len() - n@.len() ==> #[trigger] s@.subrange(
            k,
            k + n@.len(),
        ) != n@);
    }
    false
}

} // verus!
