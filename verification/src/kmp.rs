use vstd::prelude::*;

verus! {

/// `a` ends with the first `l` bytes of `pat`.
pub open spec fn ends_with_prefix(a: Seq<u8>, pat: Seq<u8>, l: int) -> bool {
    &&& 0 <= l <= a.len()
    &&& l <= pat.len()
    &&& a.subrange(a.len() - l, a.len() as int) == pat.subrange(0, l)
}

/// `l` is the length of a proper border of the first `k` bytes of `pat`:
/// those `k` bytes begin and end with the same `l` bytes, and `l < k`.
pub open spec fn is_border(pat: Seq<u8>, k: int, l: int) -> bool {
    &&& 0 <= l < k <= pat.len()
    &&& ends_with_prefix(pat.subrange(0, k), pat, l)
}

/// `l` is the longest proper border of the first `k` bytes of `pat`.
pub open spec fn is_longest_border(pat: Seq<u8>, k: int, l: int) -> bool {
    &&& is_border(pat, k, l)
    &&& forall|b: int| l < b < k ==> !#[trigger] is_border(pat, k, b)
}

/// Suffix of a suffix: if `a` ends with the first `j` bytes of `pat`, and
/// `b` is a border of those `j` bytes, then `a` ends with the first `b` bytes.
proof fn lemma_border_of_suffix(a: Seq<u8>, pat: Seq<u8>, j: int, b: int)
    requires
        ends_with_prefix(a, pat, j),
        is_border(pat, j, b),
    ensures
        ends_with_prefix(a, pat, b),
{
    let n = a.len() as int;
    assert forall|x: int| 0 <= x < b implies #[trigger] a[n - b + x] == pat[x] by {
        assert(a.subrange(n - j, n)[j - b + x] == pat.subrange(0, j)[j - b + x]);
        assert(pat.subrange(0, j).subrange(j - b, j)[x] == pat.subrange(0, b)[x]);
    }
    assert(a.subrange(n - b, n) =~= pat.subrange(0, b));
}

/// Two suffixes of `a` that are prefixes of `pat`: the shorter is a border of the longer.
proof fn lemma_shorter_is_border(a: Seq<u8>, pat: Seq<u8>, j: int, l: int)
    requires
        ends_with_prefix(a, pat, j),
        ends_with_prefix(a, pat, l),
        l < j,
    ensures
        is_border(pat, j, l),
{
    let n = a.len() as int;
    let pj = pat.subrange(0, j);
    assert forall|x: int| 0 <= x < l implies #[trigger] pj.subrange(j - l, j)[x] == pat.subrange(
        0,
        l,
    )[x] by {
        assert(a.subrange(n - j, n)[j - l + x] == pat.subrange(0, j)[j - l + x]);
        assert(a.subrange(n - l, n)[x] == pat.subrange(0, l)[x]);
    }
    assert(pj.subrange(j - l, j) =~= pat.subrange(0, l));
}

/// Ending with a prefix of length `l + 1` after one more byte `c` is ending with
/// a prefix of length `l` before it, with `c` the next byte of the pattern.
proof fn lemma_extend(a: Seq<u8>, pat: Seq<u8>, c: u8, l: int)
    requires
        0 <= l < pat.len(),
    ensures
        ends_with_prefix(a.push(c), pat, l + 1) <==> (ends_with_prefix(a, pat, l) && pat[l] == c),
{
    let a2 = a.push(c);
    let n = a.len() as int;
    if ends_with_prefix(a2, pat, l + 1) {
        assert forall|x: int| 0 <= x < l implies #[trigger] a.subrange(n - l, n)[x] == pat.subrange(
            0,
            l,
        )[x] by {
            assert(a2.subrange(n + 1 - (l + 1), n + 1)[x] == pat.subrange(0, l + 1)[x]);
        }
        assert(a.subrange(n - l, n) =~= pat.subrange(0, l));
        assert(a2.subrange(n + 1 - (l + 1), n + 1)[l] == pat.subrange(0, l + 1)[l]);
    }
    if ends_with_prefix(a, pat, l) && pat[l] == c {
        assert forall|x: int| 0 <= x < l + 1 implies #[trigger] a2.subrange(n - l, n + 1)[x]
            == pat.subrange(0, l + 1)[x] by {
            if x < l {
                assert(a.subrange(n - l, n)[x] == pat.subrange(0, l)[x]);
            }
        }
        assert(a2.subrange(n - l, n + 1) =~= pat.subrange(0, l + 1));
    }
}

/// The prefix (failure) function of `pat`: entry `k` is the length of the
/// longest proper border of the first `k + 1` bytes of `pat`.
pub fn prefix_function(pat: &[u8]) -> (pi: Vec<usize>)
    ensures
        pi.len() == pat.len(),
        forall|k: int| 0 <= k < pat.len() ==> is_longest_border(pat@, k + 1, #[trigger] pi[k] as int),
{
    let n = pat.len();
    let mut pi: Vec<usize> = Vec::new();
    if n == 0 {
        return pi;
    }
    pi.push(0);
    assert(pat@.subrange(0, 1).subrange(1, 1) =~= pat@.subrange(0, 0));
    let mut i: usize = 1;
    while i < n
        invariant
            1 <= i <= n,
            n == pat.len(),
            pi.len() == i,
            forall|k: int| 0 <= k < i ==> is_longest_border(pat@, k + 1, #[trigger] pi[k] as int),
        decreases n - i,
    {
        let ghost a = pat@.subrange(0, i as int);
        let c = pat[i];
        let mut j = pi[i - 1];
        while j > 0 && pat[j] != c
            invariant
                1 <= i < n,
                n == pat.len(),
                pi.len() == i,
                a == pat@.subrange(0, i as int),
                c == pat@[i as int],
                forall|k: int| 0 <= k < i ==> is_longest_border(pat@, k + 1, #[trigger] pi[k] as int),
                is_border(pat@, i as int, j as int),
                forall|l: int|
                    j < l < i && #[trigger] is_border(pat@, i as int, l) ==> pat@[l] != c,
            decreases j,
        {
            let ghost j0 = j as int;
            let nj = pi[j - 1];
            proof {
                assert(is_longest_border(pat@, j0, nj as int));
                lemma_border_of_suffix(a, pat@, j0, nj as int);
                assert forall|l: int| nj < l < i && #[trigger] is_border(pat@, i as int, l) implies pat@[l] != c by {
                    if l < j0 {
                        lemma_shorter_is_border(a, pat@, j0, l);
                        assert(is_border(pat@, j0, l));
                    }
                }
            }
            j = nj;
        }
        let ghost jj = j as int;
        if pat[j] == c {
            j = j + 1;
        } else {
            j = 0;
        }
        proof {
            let a2 = pat@.subrange(0, i + 1);
            assert(a2 =~= a.push(c));
            lemma_extend(a, pat@, c, jj);
            lemma_extend(a, pat@, c, 0);
            assert(pat@.subrange(0, i + 1).subrange(i + 1, i + 1) =~= pat@.subrange(0, 0));
            assert(is_border(pat@, i + 1, j as int));
            assert forall|b: int| j < b < i + 1 implies !#[trigger] is_border(pat@, i + 1, b) by {
                if is_border(pat@, i + 1, b) {
                    lemma_extend(a, pat@, c, b - 1);
                    assert(is_border(pat@, i as int, b - 1));
                }
            }
        }
        pi.push(j);
        i = i + 1;
    }
    pi
}

/// The bytes of `text` from position `k` on begin with `pat`.
pub open spec fn occurs_at(text: Seq<u8>, pat: Seq<u8>, k: int) -> bool {
    &&& 0 <= k
    &&& k + pat.len() <= text.len()
    &&& text.subrange(k, k + pat.len()) == pat
}

/// `j` is the longest prefix of `pat`, shorter than all of `pat`, that `a` ends with.
pub open spec fn is_longest_partial(a: Seq<u8>, pat: Seq<u8>, j: int) -> bool {
    &&& j < pat.len()
    &&& ends_with_prefix(a, pat, j)
    &&& forall|l: int| j < l < pat.len() ==> !#[trigger] ends_with_prefix(a, pat, l)
}

/// `res` lists, in increasing order, exactly the positions at which `pat` occurs in `text`.
pub open spec fn lists_all_occurrences(text: Seq<u8>, pat: Seq<u8>, res: Seq<usize>) -> bool {
    &&& forall|i: int, j: int| 0 <= i < j < res.len() ==> res[i] < res[j]
    &&& forall|i: int| 0 <= i < res.len() ==> occurs_at(text, pat, #[trigger] res[i] as int)
    &&& forall|k: int| occurs_at(text, pat, k) ==> res.contains(k as usize)
}

/// The positions, in increasing order, of the occurrences of `pat` that end
/// within the first `i` bytes of `text`.
pub open spec fn occurrences_upto(text: Seq<u8>, pat: Seq<u8>, i: nat) -> Seq<usize>
    decreases i,
{
    if i == 0 {
        seq![]
    } else {
        let prev = occurrences_upto(text, pat, (i - 1) as nat);
        if i >= pat.len() && occurs_at(text, pat, i - pat.len()) {
            prev.push((i - pat.len()) as usize)
        } else {
            prev
        }
    }
}

/// The positions, in increasing order, of every occurrence of `pat` in `text`.
pub open spec fn occurrences(text: Seq<u8>, pat: Seq<u8>) -> Seq<usize> {
    occurrences_upto(text, pat, text.len())
}

proof fn lemma_occurrences_upto_exact(text: Seq<u8>, pat: Seq<u8>, i: nat)
    requires
        pat.len() > 0,
        i <= text.len() <= usize::MAX,
    ensures
        forall|x: int, y: int|
            0 <= x < y < occurrences_upto(text, pat, i).len() ==> occurrences_upto(text, pat, i)[x]
                < occurrences_upto(text, pat, i)[y],
        forall|x: int|
            0 <= x < occurrences_upto(text, pat, i).len() ==> occurs_at(
                text,
                pat,
                #[trigger] occurrences_upto(text, pat, i)[x] as int,
            ) && occurrences_upto(text, pat, i)[x] + pat.len() <= i,
        forall|k: int|
            k + pat.len() <= i && occurs_at(text, pat, k) ==> occurrences_upto(
                text,
                pat,
                i,
            ).contains(k as usize),
    decreases i,
{
    if i > 0 {
        let prev = occurrences_upto(text, pat, (i - 1) as nat);
        lemma_occurrences_upto_exact(text, pat, (i - 1) as nat);
        let cur = occurrences_upto(text, pat, i);
        assert forall|k: int| k + pat.len() <= i && occurs_at(text, pat, k) implies cur.contains(
            k as usize,
        ) by {
            if k + pat.len() <= i - 1 {
                let w = choose|w: int| 0 <= w < prev.len() && prev[w] == k as usize;
                assert(cur[w] == k as usize);
            } else {
                assert(cur[cur.len() - 1] == k as usize);
            }
        }
    }
}

/// Every position listed by [`occurrences`] is an occurrence, in strictly
/// increasing order, and no occurrence is left out.
pub proof fn lemma_occurrences_exact(text: Seq<u8>, pat: Seq<u8>)
    requires
        pat.len() > 0,
        text.len() <= usize::MAX,
    ensures
        lists_all_occurrences(text, pat, occurrences(text, pat)),
{
    lemma_occurrences_upto_exact(text, pat, text.len());
}

proof fn lemma_occurs_iff_ends_with(text: Seq<u8>, pat: Seq<u8>, k: int)
    requires
        0 <= k,
        k + pat.len() <= text.len(),
    ensures
        occurs_at(text, pat, k) <==> ends_with_prefix(
            text.subrange(0, k + pat.len()),
            pat,
            pat.len() as int,
        ),
{
    let m = pat.len() as int;
    let a = text.subrange(0, k + m);
    assert(a.subrange(k, k + m) =~= text.subrange(k, k + m));
    assert(pat.subrange(0, m) =~= pat);
}

/// Knuth-Morris-Pratt search: the positions, in increasing order, of every
/// occurrence of `pat` in `text`, overlapping occurrences included.
pub fn kmp_search(text: &[u8], pat: &[u8]) -> (res: Vec<usize>)
    requires
        pat.len() > 0,
    ensures
        res@ == occurrences(text@, pat@),
        lists_all_occurrences(text@, pat@, res@),
{
    let m = pat.len();
    let n = text.len();
    let pi = prefix_function(pat);
    let mut res: Vec<usize> = Vec::new();
    let mut j: usize = 0;
    let mut i: usize = 0;
    proof {
        assert forall|l: int| 0 < l < m implies !#[trigger] ends_with_prefix(
            text@.subrange(0, 0),
            pat@,
            l,
        ) by {}
        assert(text@.subrange(0, 0).subrange(0, 0) =~= pat@.subrange(0, 0));
    }
    while i < n
        invariant
            0 <= i <= n,
            n == text.len(),
            m == pat.len(),
            m > 0,
            pi.len() == m,
            forall|k: int| 0 <= k < m ==> is_longest_border(pat@, k + 1, #[trigger] pi[k] as int),
            is_longest_partial(text@.subrange(0, i as int), pat@, j as int),
            res@ == occurrences_upto(text@, pat@, i as nat),
        decreases n - i,
    {
        let ghost a = text@.subrange(0, i as int);
        let c = text[i];
        while j > 0 && pat[j] != c
            invariant
                m == pat.len(),
                pi.len() == m,
                forall|k: int| 0 <= k < m ==> is_longest_border(pat@, k + 1, #[trigger] pi[k] as int),
                j < m,
                ends_with_prefix(a, pat@, j as int),
                forall|l: int|
                    j < l < m && #[trigger] ends_with_prefix(a, pat@, l) ==> pat@[l] != c,
            decreases j,
        {
            let ghost j0 = j as int;
            let nj = pi[j - 1];
            proof {
                assert(is_longest_border(pat@, j0, nj as int));
                lemma_border_of_suffix(a, pat@, j0, nj as int);
                assert forall|l: int| nj < l < m && #[trigger] ends_with_prefix(a, pat@, l) implies pat@[l] != c by {
                    if l < j0 {
                        lemma_shorter_is_border(a, pat@, j0, l);
                        assert(is_border(pat@, j0, l));
                    }
                }
            }
            j = nj;
        }
        let ghost jj = j as int;
        if pat[j] == c {
            j = j + 1;
        } else {
            j = 0;
        }
        let ghost a2 = text@.subrange(0, i + 1);
        proof {
            assert(a2 =~= a.push(c));
            lemma_extend(a, pat@, c, jj);
            lemma_extend(a, pat@, c, 0);
            assert(a2.subrange(a2.len() as int, a2.len() as int) =~= pat@.subrange(0, 0));
            assert(ends_with_prefix(a2, pat@, j as int));
            assert forall|b: int| j < b <= m implies !#[trigger] ends_with_prefix(a2, pat@, b) by {
                if ends_with_prefix(a2, pat@, b) {
                    lemma_extend(a, pat@, c, b - 1);
                }
            }
        }
        if j == m {
            let k = i + 1 - m;
            proof {
                lemma_occurs_iff_ends_with(text@, pat@, k as int);
                assert(text@.subrange(0, k + m) =~= a2);
            }
            res.push(k);
            let nj = pi[m - 1];
            proof {
                assert(is_longest_border(pat@, m as int, nj as int));
                lemma_border_of_suffix(a2, pat@, m as int, nj as int);
                assert forall|l: int| nj < l < m implies !#[trigger] ends_with_prefix(a2, pat@, l) by {
                    if ends_with_prefix(a2, pat@, l) {
                        lemma_shorter_is_border(a2, pat@, m as int, l);
                    }
                }
            }
            j = nj;
        } else {
            proof {
                if i + 1 >= m {
                    let k = i + 1 - m;
                    lemma_occurs_iff_ends_with(text@, pat@, k as int);
                    assert(text@.subrange(0, k + m) =~= a2);
                }
            }
        }
        i = i + 1;
    }
    proof {
        lemma_occurrences_exact(text@, pat@);
    }
    res
}

} // verus!
