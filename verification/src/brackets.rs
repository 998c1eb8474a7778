use vstd::prelude::*;
use std::collections::HashMap;

verus! {

broadcast use vstd::std_specs::hash::group_hash_axioms;

/// Whether an instruction opens a loop, closes one, or does neither.
/// Both instruction sets expose their loop structure through this type, so
/// one bracket-matching algorithm serves every backend.
#[derive(Clone, Copy, PartialEq, Eq, Structural, Debug)]
pub enum LoopRole {
    Open,
    Close,
    Other,
}

/// One left-to-right pass of the bracket-matching algorithm over the first
/// `n` elements: the matches recorded so far together with the stack of
/// still-pending loop-open indices, or the index of a loop-close that was
/// seen while no open was pending.
pub open spec fn bracket_scan(roles: Seq<LoopRole>, n: int) -> Result<
    (Map<usize, usize>, Seq<usize>),
    usize,
>
    decreases n,
{
    if n <= 0 {
        Ok((Map::empty(), Seq::empty()))
    } else {
        match bracket_scan(roles, n - 1) {
            Err(e) => Err(e),
            Ok((m, st)) => {
                let i = (n - 1) as usize;
                match roles[n - 1] {
                    LoopRole::Open => Ok((m, st.push(i))),
                    LoopRole::Close => if st.len() == 0 {
                        Err(i)
                    } else {
                        Ok((m.insert(i, st.last()).insert(st.last(), i), st.drop_last()))
                    },
                    LoopRole::Other => Ok((m, st)),
                }
            },
        }
    }
}

/// The bracket map of a whole stream: the symmetric index-to-index pairing
/// of its loop instructions, or the index of the offending bracket — a
/// close seen with no open pending, or else the earliest open still pending
/// after the full pass.
pub open spec fn bracket_result(roles: Seq<LoopRole>) -> Result<Map<usize, usize>, usize> {
    match bracket_scan(roles, roles.len() as int) {
        Err(e) => Err(e),
        Ok((m, st)) => if st.len() == 0 {
            Ok(m)
        } else {
            Err(st[0])
        },
    }
}

/// A stream is balanced when the full pass succeeds.
pub open spec fn balanced(roles: Seq<LoopRole>) -> bool {
    bracket_result(roles) is Ok
}

/// The bracket map of a balanced stream (the empty map of an unbalanced one).
pub open spec fn bracket_map_of(roles: Seq<LoopRole>) -> Map<usize, usize> {
    match bracket_result(roles) {
        Ok(m) => m,
        Err(_) => Map::empty(),
    }
}

/// Everything a partial pass guarantees: the pending stack lists, in strictly
/// increasing order, exactly the opens not yet matched, and the map so far is
/// a symmetric pairing of each recorded open with the close above it.
pub open spec fn scan_ok_props(
    roles: Seq<LoopRole>,
    n: int,
    m: Map<usize, usize>,
    st: Seq<usize>,
) -> bool {
    &&& (forall|k: int|
        0 <= k < st.len() ==> ((#[trigger] st[k]) as int) < n && roles[st[k] as int]
            == LoopRole::Open && !m.contains_key(st[k]))
    &&& (forall|k1: int, k2: int| 0 <= k1 < k2 < st.len() ==> st[k1] < st[k2])
    &&& (forall|i: usize| #[trigger]
        m.contains_key(i) ==> {
            &&& (i as int) < n
            &&& m.contains_key(m[i])
            &&& m[m[i]] == i
            &&& (m[i] as int) < n
            &&& m[i] != i
            &&& (roles[i as int] == LoopRole::Open <==> i < m[i])
            &&& (roles[i as int] == LoopRole::Open || roles[i as int] == LoopRole::Close)
            &&& (roles[i as int] == LoopRole::Open ==> roles[m[i] as int] == LoopRole::Close)
            &&& (roles[i as int] == LoopRole::Close ==> roles[m[i] as int] == LoopRole::Open)
        })
    &&& (forall|i: int|
        0 <= i < n && (#[trigger] roles[i]) != LoopRole::Other ==> m.contains_key(i as usize)
            || st.contains(i as usize))
}

/// The partial pass always satisfies `scan_ok_props`, and a failure always
/// points at a loop-close inside the scanned prefix.
pub proof fn lemma_scan_props(roles: Seq<LoopRole>, n: int)
    requires
        0 <= n <= roles.len(),
        roles.len() <= usize::MAX,
    ensures
        match bracket_scan(roles, n) {
            Ok((m, st)) => scan_ok_props(roles, n, m, st),
            Err(e) => (e as int) < n && roles[e as int] == LoopRole::Close,
        },
    decreases n,
{
    if n <= 0 {
    } else {
        lemma_scan_props(roles, n - 1);
        match bracket_scan(roles, n - 1) {
            Err(e) => {},
            Ok((m, st)) => {
                let i = (n - 1) as usize;
                match roles[n - 1] {
                    LoopRole::Open => {
                        let st2 = st.push(i);
                        assert forall|ii: int|
                            0 <= ii < n && (#[trigger] roles[ii]) != LoopRole::Other implies m
                            .contains_key(ii as usize) || st2.contains(ii as usize) by {
                            if ii < n - 1 {
                                if st.contains(ii as usize) {
                                    let k = choose|k: int|
                                        0 <= k < st.len() && st[k] == ii as usize;
                                    assert(st2[k] == ii as usize);
                                }
                            } else {
                                assert(st2[st.len() as int] == i);
                            }
                        }
                    },
                    LoopRole::Close => {
                        if st.len() == 0 {
                        } else {
                            let o = st.last();
                            let m2 = m.insert(i, o).insert(o, i);
                            let st2 = st.drop_last();
                            assert((o as int) < n - 1);
                            assert(!m.contains_key(o));
                            assert(!m.contains_key(i));
                            assert forall|j: usize| #[trigger] m2.contains_key(j) implies {
                                &&& (j as int) < n
                                &&& m2.contains_key(m2[j])
                                &&& m2[m2[j]] == j
                                &&& (m2[j] as int) < n
                                &&& m2[j] != j
                                &&& (roles[j as int] == LoopRole::Open <==> j < m2[j])
                                &&& (roles[j as int] == LoopRole::Open || roles[j as int]
                                    == LoopRole::Close)
                                &&& (roles[j as int] == LoopRole::Open ==> roles[m2[j] as int]
                                    == LoopRole::Close)
                                &&& (roles[j as int] == LoopRole::Close ==> roles[m2[j] as int]
                                    == LoopRole::Open)
                            } by {
                                if j == o || j == i {
                                } else {
                                    assert(m.contains_key(j));
                                    assert(m.contains_key(m[j]));
                                    assert(m2[j] == m[j]);
                                    assert(m[j] != i && m[j] != o);
                                    assert(m2[m[j]] == m[m[j]]);
                                }
                            }
                            assert forall|k: int| 0 <= k < st2.len() implies ((#[trigger] st2[k]) as int)
                                < n && roles[st2[k] as int] == LoopRole::Open && !m2.contains_key(
                                st2[k],
                            ) by {
                                assert(st2[k] == st[k]);
                                assert(st[k] < st[st.len() - 1]);
                                assert(st2[k] != o && st2[k] != i);
                            }
                            assert forall|ii: int|
                                0 <= ii < n && (#[trigger] roles[ii]) != LoopRole::Other implies m2
                                .contains_key(ii as usize) || st2.contains(ii as usize) by {
                                if ii < n - 1 {
                                    if !m.contains_key(ii as usize) {
                                        assert(st.contains(ii as usize));
                                        let k = choose|k: int|
                                            0 <= k < st.len() && st[k] == ii as usize;
                                        if k == st.len() - 1 {
                                            assert(m2.contains_key(o));
                                        } else {
                                            assert(st2[k] == ii as usize);
                                        }
                                    }
                                }
                            }
                            assert(scan_ok_props(roles, n, m2, st2));
                        }
                    },
                    LoopRole::Other => {},
                }
            },
        }
    }
}

/// Once a pass has failed, scanning further elements reports the same index.
pub proof fn lemma_scan_err_persists(roles: Seq<LoopRole>, n: int, n2: int)
    requires
        bracket_scan(roles, n) is Err,
        n <= n2,
    ensures
        bracket_scan(roles, n2) == bracket_scan(roles, n),
    decreases n2 - n,
{
    if n2 > n {
        lemma_scan_err_persists(roles, n, n2 - 1);
    }
}

/// Bracket symmetry: for every successfully matched stream the bracket map
/// satisfies `map[map[i]] == i` on every index it contains, each pairing
/// joining a loop-open below with its loop-close above; and it is total over
/// the loop indices of the stream.
pub proof fn lemma_bracket_map_symmetric(roles: Seq<LoopRole>)
    requires
        roles.len() <= usize::MAX,
        balanced(roles),
    ensures
        forall|i: usize| #[trigger]
            bracket_map_of(roles).contains_key(i) ==> {
                &&& bracket_map_of(roles).contains_key(bracket_map_of(roles)[i])
                &&& bracket_map_of(roles)[bracket_map_of(roles)[i]] == i
                &&& (i as int) < roles.len()
                &&& (bracket_map_of(roles)[i] as int) < roles.len()
                &&& bracket_map_of(roles)[i] != i
                &&& (roles[i as int] == LoopRole::Open <==> i < bracket_map_of(roles)[i])
                &&& (roles[i as int] == LoopRole::Open || roles[i as int] == LoopRole::Close)
                &&& (roles[i as int] == LoopRole::Open ==> roles[bracket_map_of(roles)[i] as int]
                    == LoopRole::Close)
                &&& (roles[i as int] == LoopRole::Close ==> roles[bracket_map_of(roles)[i] as int]
                    == LoopRole::Open)
            },
        forall|i: int|
            0 <= i < roles.len() && (#[trigger] roles[i]) != LoopRole::Other ==> bracket_map_of(
                roles,
            ).contains_key(i as usize),
{
    lemma_scan_props(roles, roles.len() as int);
    match bracket_scan(roles, roles.len() as int) {
        Ok((m, st)) => {
            assert(st.len() == 0);
        },
        Err(e) => {},
    }
}

/// The pass reads only the elements before `k`: streams that agree there
/// scan to the same state.
pub proof fn lemma_scan_same_prefix(r1: Seq<LoopRole>, r2: Seq<LoopRole>, k: int)
    requires
        forall|p: int| 0 <= p < k ==> r1[p] == r2[p],
    ensures
        bracket_scan(r1, k) == bracket_scan(r2, k),
    decreases k,
{
    if k > 0 {
        lemma_scan_same_prefix(r1, r2, k - 1);
    }
}

/// The height of the pending-opens stack after scanning `q` elements.
pub open spec fn scan_height(roles: Seq<LoopRole>, q: int) -> int {
    match bracket_scan(roles, q) {
        Ok((m, st)) => st.len() as int,
        Err(_) => -1,
    }
}

/// A prefix of a successful pass is itself successful.
pub proof fn lemma_scan_prefix_ok(roles: Seq<LoopRole>, p: int, n: int)
    requires
        p <= n,
        bracket_scan(roles, n) is Ok,
    ensures
        bracket_scan(roles, p) is Ok,
{
    if bracket_scan(roles, p) is Err {
        lemma_scan_err_persists(roles, p, n);
    }
}

/// Matches, once recorded, are never overwritten by the rest of the pass.
pub proof fn lemma_scan_map_persists(roles: Seq<LoopRole>, p1: int, p2: int)
    requires
        0 <= p1 <= p2 <= roles.len(),
        roles.len() <= usize::MAX,
        bracket_scan(roles, p2) is Ok,
    ensures
        match (bracket_scan(roles, p1), bracket_scan(roles, p2)) {
            (Ok((m1, st1)), Ok((m2, st2))) => forall|k: usize| #[trigger]
                m1.contains_key(k) ==> m2.contains_key(k) && m2[k] == m1[k],
            _ => false,
        },
    decreases p2,
{
    lemma_scan_prefix_ok(roles, p1, p2);
    if p2 > p1 {
        lemma_scan_prefix_ok(roles, p2 - 1, p2);
        lemma_scan_map_persists(roles, p1, p2 - 1);
        lemma_scan_props(roles, p2 - 1);
    }
}

/// Between the step that pushes a loop-open and the step that pops it, the
/// open stays in the pending stack at a fixed position — the stack height
/// where it was pushed — with the stack strictly taller; at its matching
/// close it is the top of the stack.
pub proof fn lemma_open_pending(roles: Seq<LoopRole>, i: int, p: int)
    requires
        roles.len() <= usize::MAX,
        balanced(roles),
        0 <= i < roles.len(),
        bracket_map_of(roles).contains_key(i as usize),
        i < bracket_map_of(roles)[i as usize],
        i < p <= bracket_map_of(roles)[i as usize],
    ensures
        match bracket_scan(roles, p) {
            Ok((m, st)) => {
                &&& st.len() > scan_height(roles, i)
                &&& st[scan_height(roles, i)] == i as usize
                &&& (p == bracket_map_of(roles)[i as usize] ==> st.len() == scan_height(roles, i)
                    + 1)
            },
            Err(_) => false,
        },
    decreases p,
{
    let nn = roles.len() as int;
    let j = bracket_map_of(roles)[i as usize] as int;
    lemma_bracket_map_symmetric(roles);
    assert(roles[i] == LoopRole::Open && roles[j] == LoopRole::Close && j < nn);
    lemma_scan_prefix_ok(roles, p, nn);
    lemma_scan_prefix_ok(roles, p - 1, nn);
    lemma_scan_prefix_ok(roles, i, nn);
    let hi = scan_height(roles, i);
    if p == i + 1 {
        assert(match bracket_scan(roles, i + 1) {
            Ok((m, st)) => st.len() == hi + 1 && st[hi] == i as usize,
            Err(_) => false,
        });
    } else {
        lemma_open_pending(roles, i, p - 1);
        lemma_scan_props(roles, p - 1);
        let (mp, stp) = match bracket_scan(roles, p - 1) {
            Ok(x) => x,
            Err(_) => arbitrary(),
        };
        if roles[p - 1] == LoopRole::Close {
            // the pop at p - 1 cannot take this open: its recorded match
            // would then be p - 1, not j
            if stp.last() == i as usize {
                lemma_scan_map_persists(roles, p, nn);
                let (mp2, stp2) = match bracket_scan(roles, p) {
                    Ok(x) => x,
                    Err(_) => arbitrary(),
                };
                assert(mp2 == mp.insert((p - 1) as usize, stp.last()).insert(
                    stp.last(),
                    (p - 1) as usize,
                ));
                assert(mp2.contains_key(i as usize) && mp2[i as usize] == (p - 1) as usize);
                let (mf, stf) = match bracket_scan(roles, nn) {
                    Ok(x) => x,
                    Err(_) => arbitrary(),
                };
                assert(mf.contains_key(i as usize) && mf[i as usize] == (p - 1) as usize);
                assert(bracket_map_of(roles) == mf);
                assert(false);
            }
            assert(stp.len() - 1 > hi);
        }
    }
    // at the matching close itself, the open is on top: the pair recorded
    // there survives to the final map, which pairs the close with this open
    if p == j {
        lemma_scan_props(roles, j);
        let (mj, stj) = match bracket_scan(roles, j) {
            Ok(x) => x,
            Err(_) => arbitrary(),
        };
        lemma_scan_prefix_ok(roles, j + 1, nn);
        assert(stj.len() > 0);
        lemma_scan_map_persists(roles, j + 1, nn);
        let (mj1, stj1) = match bracket_scan(roles, j + 1) {
            Ok(x) => x,
            Err(_) => arbitrary(),
        };
        assert(mj1 == mj.insert(j as usize, stj.last()).insert(stj.last(), j as usize));
        assert(mj1.contains_key(j as usize) && mj1[j as usize] == stj.last());
        let (mf, stf) = match bracket_scan(roles, nn) {
            Ok(x) => x,
            Err(_) => arbitrary(),
        };
        assert(mf.contains_key(j as usize) && mf[j as usize] == stj.last());
        assert(bracket_map_of(roles) == mf);
        assert(bracket_map_of(roles)[j as usize] == i as usize);
        assert(stj.last() == i as usize);
        assert(stj[hi] == i as usize && stj.len() > hi);
        assert(forall|k1: int, k2: int| 0 <= k1 < k2 < stj.len() ==> stj[k1] < stj[k2]);
        if stj.len() > hi + 1 {
            assert(stj[stj.len() - 1] == i as usize);
            assert(stj[hi] < stj[stj.len() - 1]);
            assert(false);
        }
    }
}

/// Finds the matching bracket of every loop instruction in one pass, or
/// reports the index of the offending bracket as `bracket_result` describes.
pub fn match_brackets(roles: &Vec<LoopRole>) -> (r: Result<HashMap<usize, usize>, usize>)
    ensures
        match r {
            Ok(m) => bracket_result(roles@) == Ok::<Map<usize, usize>, usize>(m@),
            Err(e) => bracket_result(roles@) == Err::<Map<usize, usize>, usize>(e),
        },
{
    let mut matching: HashMap<usize, usize> = HashMap::new();
    let mut stack: Vec<usize> = Vec::new();
    let n = roles.len();
    let mut i: usize = 0;
    while i < n
        invariant
            i <= n,
            n == roles@.len(),
            bracket_scan(roles@, i as int) == Ok::<(Map<usize, usize>, Seq<usize>), usize>(
                (matching@, stack@),
            ),
        decreases n - i,
    {
        match roles[i] {
            LoopRole::Open => {
                stack.push(i);
            },
            LoopRole::Close => {
                match stack.pop() {
                    Some(j) => {
                        matching.insert(i, j);
                        matching.insert(j, i);
                    },
                    None => {
                        proof {
                            lemma_scan_err_persists(roles@, i + 1, roles@.len() as int);
                        }
                        return Err(i);
                    },
                }
            },
            LoopRole::Other => {},
        }
        i += 1;
    }
    if stack.len() > 0 {
        return Err(stack[0]);
    }
    Ok(matching)
}

} // verus!
