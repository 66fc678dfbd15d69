//! The read-only binary namespace.
//!
//! A [`BinFs`] is "mounted" at a fixed path.  Only paths rooted under the
//! mount point resolve; resolution appends a fixed suffix to the file's base
//! name to locate the backing artifact.  Paths are modelled by their
//! separator-split components, so stray or repeated separators do not change
//! what a path names.

use vstd::prelude::*;
use vstd::string::*;

verus! {

/// Index of the first `/` in `p`, or `p.len()` if there is none.
pub open spec fn first_sep(p: Seq<char>) -> int
    decreases p.len(),
{
    if p.len() == 0 {
        0
    } else if p[0] == '/' {
        0
    } else {
        1 + first_sep(p.skip(1))
    }
}

/// `first_sep` points at the first separator: everything before it is not a
/// separator, and it is a separator unless the path has none at all.
pub proof fn lemma_first_sep_bounds(p: Seq<char>)
    ensures
        0 <= first_sep(p) <= p.len(),
        forall|i: int| 0 <= i < first_sep(p) ==> p[i] != '/',
        first_sep(p) < p.len() ==> p[first_sep(p)] == '/',
    decreases p.len(),
{
    if p.len() > 0 && p[0] != '/' {
        lemma_first_sep_bounds(p.skip(1));
        assert forall|i: int| 0 <= i < first_sep(p) implies p[i] != '/' by {
            if i > 0 {
                assert(p.skip(1)[i - 1] == p[i]);
            }
        }
        if first_sep(p) < p.len() {
            assert(p.skip(1)[first_sep(p) - 1] == p[first_sep(p)]);
        }
    }
}

/// A position that no separator precedes, and that holds a separator unless
/// it is the end, is exactly `first_sep`.
pub proof fn lemma_first_sep_determined(p: Seq<char>, k: int)
    requires
        0 <= k <= p.len(),
        forall|i: int| 0 <= i < k ==> p[i] != '/',
        k < p.len() ==> p[k] == '/',
    ensures
        first_sep(p) == k,
    decreases p.len(),
{
    if p.len() == 0 {
    } else if p[0] == '/' {
        assert(k == 0);
    } else {
        assert(k >= 1);
        assert forall|i: int| 0 <= i < k - 1 implies p.skip(1)[i] != '/' by {
            assert(p.skip(1)[i] == p[i + 1]);
        }
        if k - 1 < p.skip(1).len() {
            assert(p.skip(1)[k - 1] == p[k]);
        }
        lemma_first_sep_determined(p.skip(1), k - 1);
    }
}

/// Whether the path is absolute: rooted at a leading separator.
pub open spec fn path_is_abs(p: Seq<char>) -> bool {
    p.len() > 0 && p[0] == '/'
}

#[via_fn]
proof fn components_dec(p: Seq<char>) {
    if p.len() > 0 && p[0] != '/' {
        lemma_first_sep_bounds(p.skip(1));
    }
}

/// The components of a path: the maximal separator-free runs, in order.
/// Empty runs (from repeated or trailing separators) do not count.
pub open spec fn components(p: Seq<char>) -> Seq<Seq<char>>
    decreases p.len(),
    via components_dec
{
    if p.len() == 0 {
        Seq::empty()
    } else if p[0] == '/' {
        components(p.skip(1))
    } else {
        seq![p.take(first_sep(p))] + components(p.skip(first_sep(p)))
    }
}

/// A path `p` starts with `q` when both are rooted the same way and `q`'s
/// components are a prefix of `p`'s.
pub open spec fn starts_with_path(p: Seq<char>, q: Seq<char>) -> bool {
    &&& path_is_abs(p) == path_is_abs(q)
    &&& components(q).len() <= components(p).len()
    &&& forall|i: int| 0 <= i < components(q).len() ==> components(p)[i] == components(q)[i]
}

/// Components joined by single separators, with no root.
pub open spec fn join(cs: Seq<Seq<char>>) -> Seq<char>
    decreases cs.len(),
{
    if cs.len() == 0 {
        Seq::empty()
    } else if cs.len() == 1 {
        cs[0]
    } else {
        cs[0] + seq!['/'] + join(cs.drop_first())
    }
}

/// Extending a join by one more component appends one separator and the
/// component, except at the front.
pub proof fn lemma_join_push(cs: Seq<Seq<char>>, c: Seq<char>)
    ensures
        cs.len() == 0 ==> join(cs.push(c)) == c,
        cs.len() > 0 ==> join(cs.push(c)) == join(cs) + seq!['/'] + c,
    decreases cs.len(),
{
    if cs.len() == 0 {
        assert(cs.push(c)[0] == c);
    } else if cs.len() == 1 {
        assert(cs.push(c).drop_first() =~= cs.drop_first().push(c));
        assert(cs.push(c)[0] == cs[0]);
        assert(join(cs.push(c).drop_first()) == c);
    } else {
        lemma_join_push(cs.drop_first(), c);
        assert(cs.push(c).drop_first() =~= cs.drop_first().push(c));
        assert(cs.push(c)[0] == cs[0]);
        assert(join(cs) + seq!['/'] + c =~= cs[0] + seq!['/'] + (join(cs.drop_first())
            + seq!['/'] + c));
    }
}

/// The root of a path: its leading separator, if it is absolute.
pub open spec fn root_of(p: Seq<char>) -> Seq<char> {
    if path_is_abs(p) {
        seq!['/']
    } else {
        Seq::empty()
    }
}

/// The location backing `path` under the mount point `mount`: the path,
/// cleaned to single separators, with the artifact suffix appended to its
/// base name.  Paths not rooted under the mount point, and paths with no
/// components at all, do not resolve.
pub open spec fn resolve_spec(mount: Seq<char>, path: Seq<char>) -> Option<Seq<char>> {
    if starts_with_path(path, mount) && components(path).len() > 0 {
        Some(root_of(path) + join(components(path)) + ".js"@)
    } else {
        None
    }
}

/// The base name of a path: its last component, if it has one.
pub open spec fn file_name_spec(p: Seq<char>) -> Option<Seq<char>> {
    if components(p).len() > 0 {
        Some(components(p).last())
    } else {
        None
    }
}

/// Whether the optional string `r` holds exactly the optional character
/// sequence `s`.
pub open spec fn str_opt_matches(r: Option<String>, s: Option<Seq<char>>) -> bool {
    match s {
        Some(x) => r matches Some(out) && out@ == x,
        None => r is None,
    }
}

/// The interpretation of a list of index ranges into `p`.
pub open spec fn ranges_interp(p: Seq<char>, rs: Seq<(usize, usize)>) -> Seq<Seq<char>> {
    Seq::new(rs.len(), |i: int| p.subrange(rs[i].0 as int, rs[i].1 as int))
}

/// Whether every range is within bounds and nonempty.
pub open spec fn ranges_ok(p: Seq<char>, rs: Seq<(usize, usize)>) -> bool {
    forall|i: int| 0 <= i < rs.len() ==> (#[trigger] rs[i]).0 < rs[i].1 <= p.len()
}

/// The characters of `s`, for index-based scanning.
fn chars_of(s: &str) -> (r: Vec<char>)
    ensures
        r@ == s@,
{
    let n = s.unicode_len();
    let mut r: Vec<char> = Vec::new();
    let mut i: usize = 0;
    while i < n
        invariant
            n == s@.len(),
            0 <= i <= n,
            r@ == s@.take(i as int),
        decreases n - i,
    {
        r.push(s.get_char(i));
        proof {
            assert(r@ =~= s@.take(i + 1));
        }
        i += 1;
    }
    proof {
        assert(r@ =~= s@);
    }
    r
}

/// Scans `v` into the index ranges of its components.
fn scan_components(v: &Vec<char>) -> (r: Vec<(usize, usize)>)
    ensures
        ranges_ok(v@, r@),
        ranges_interp(v@, r@) == components(v@),
{
    let n = v.len();
    let mut r: Vec<(usize, usize)> = Vec::new();
    let mut i: usize = 0;
    proof {
        assert(v@.skip(0) =~= v@);
        assert(ranges_interp(v@, r@) + components(v@) =~= components(v@));
    }
    while i < n
        invariant
            n == v@.len(),
            0 <= i <= n,
            ranges_ok(v@, r@),
            components(v@) == ranges_interp(v@, r@) + components(v@.skip(i as int)),
        decreases n - i,
    {
        if v[i] == '/' {
            proof {
                assert(v@.skip(i as int)[0] == v@[i as int]);
                assert(v@.skip(i as int).skip(1) =~= v@.skip(i + 1));
            }
            i += 1;
        } else {
            let start = i;
            let mut j = i + 1;
            while j < n
                invariant
                    n == v@.len(),
                    start < j <= n,
                    forall|k: int| start <= k < j ==> v@[k] != '/',
                ensures
                    start < j <= n,
                    forall|k: int| start <= k < j ==> v@[k] != '/',
                    j < n ==> v@[j as int] == '/',
                decreases n - j,
            {
                if v[j] == '/' {
                    break ;
                }
                j += 1;
            }
            proof {
                let suf = v@.skip(start as int);
                assert forall|k: int| 0 <= k < j - start implies suf[k] != '/' by {
                    assert(suf[k] == v@[start + k]);
                }
                if j < n {
                    assert(suf[j - start] == v@[j as int]);
                }
                lemma_first_sep_determined(suf, j - start);
                assert(suf[0] == v@[start as int]);
                assert(suf.take(j - start) =~= v@.subrange(start as int, j as int));
                assert(suf.skip(j - start) =~= v@.skip(j as int));
                assert(components(suf) == seq![v@.subrange(start as int, j as int)] + components(
                    v@.skip(j as int),
                ));
            }
            r.push((start, j));
            proof {
                assert(ranges_interp(v@, r@) =~= ranges_interp(v@, r@.drop_last()) + seq![
                    v@.subrange(start as int, j as int),
                ]);
                assert(components(v@) == ranges_interp(v@, r@) + components(v@.skip(j as int)));
            }
            i = j;
        }
    }
    proof {
        assert(components(v@.skip(n as int)) =~= Seq::<Seq<char>>::empty());
        assert(components(v@) =~= ranges_interp(v@, r@));
    }
    r
}

/// Whether two index ranges hold the same characters.
fn range_eq(p: &Vec<char>, a: (usize, usize), m: &Vec<char>, b: (usize, usize)) -> (r: bool)
    requires
        a.0 <= a.1 <= p@.len(),
        b.0 <= b.1 <= m@.len(),
    ensures
        r == (p@.subrange(a.0 as int, a.1 as int) == m@.subrange(b.0 as int, b.1 as int)),
{
    let la = a.1 - a.0;
    let lb = b.1 - b.0;
    if la != lb {
        proof {
            assert(p@.subrange(a.0 as int, a.1 as int).len() != m@.subrange(
                b.0 as int,
                b.1 as int,
            ).len());
        }
        return false;
    }
    let mut k: usize = 0;
    while k < la
        invariant
            a.0 <= a.1 <= p@.len(),
            b.0 <= b.1 <= m@.len(),
            la == a.1 - a.0,
            la == b.1 - b.0,
            0 <= k <= la,
            forall|t: int| 0 <= t < k ==> #[trigger] p@[a.0 + t] == m@[b.0 + t],
        decreases la - k,
    {
        if p[a.0 + k] != m[b.0 + k] {
            proof {
                assert(p@.subrange(a.0 as int, a.1 as int)[k as int] != m@.subrange(
                    b.0 as int,
                    b.1 as int,
                )[k as int]);
            }
            return false;
        }
        k += 1;
    }
    proof {
        assert forall|t: int|
            0 <= t < la implies p@.subrange(a.0 as int, a.1 as int)[t] == m@.subrange(
            b.0 as int,
            b.1 as int,
        )[t] by {
            assert(p@[a.0 + t] == m@[b.0 + t]);
        }
        assert(p@.subrange(a.0 as int, a.1 as int) =~= m@.subrange(b.0 as int, b.1 as int));
    }
    true
}

/// A read-only filesystem of executable artifacts mounted at a fixed path.
/// All files it backs live under the mount point.
pub struct BinFs {
    mount_point: String,
}

impl View for BinFs {
    type V = Seq<char>;

    closed spec fn view(&self) -> Seq<char> {
        self.mount_point@
    }
}

impl BinFs {
    /// A namespace mounted at `mount_point`.
    pub fn new(mount_point: &str) -> (r: Self)
        ensures
            r@ == mount_point@,
    {
        BinFs { mount_point: String::from_str(mount_point) }
    }

    /// Resolves a file path to the location backing the file: a path rooted
    /// under the mount point gets the artifact suffix appended to its base
    /// name; any other path does not resolve.
    pub fn resolve(&self, file_path: &str) -> (r: Option<String>)
        ensures
            str_opt_matches(r, resolve_spec(self@, file_path@)),
    {
        let pv = chars_of(file_path);
        let mv = chars_of(self.mount_point.as_str());
        let pcs = scan_components(&pv);
        let mcs = scan_components(&mv);
        let p_abs = if pv.len() > 0 {
            pv[0] == '/'
        } else {
            false
        };
        let m_abs = if mv.len() > 0 {
            mv[0] == '/'
        } else {
            false
        };
        proof {
            assert(p_abs == path_is_abs(file_path@));
            assert(m_abs == path_is_abs(self@));
        }
        if p_abs != m_abs {
            return None;
        }
        if mcs.len() > pcs.len() {
            proof {
                assert(components(self@).len() > components(file_path@).len());
            }
            return None;
        }
        let m_count = mcs.len();
        let mut idx: usize = 0;
        while idx < m_count
            invariant
                0 <= idx <= m_count,
                pv@ == file_path@,
                mv@ == self@,
                m_count == mcs@.len(),
                mcs@.len() <= pcs@.len(),
                ranges_ok(pv@, pcs@),
                ranges_ok(mv@, mcs@),
                ranges_interp(pv@, pcs@) == components(pv@),
                ranges_interp(mv@, mcs@) == components(mv@),
                forall|t: int| 0 <= t < idx ==> components(pv@)[t] == components(mv@)[t],
            decreases m_count - idx,
        {
            let pr = pcs[idx];
            let mr = mcs[idx];
            if !range_eq(&pv, pr, &mv, mr) {
                proof {
                    assert(components(pv@)[idx as int] == ranges_interp(pv@, pcs@)[idx as int]);
                    assert(components(mv@)[idx as int] == ranges_interp(mv@, mcs@)[idx as int]);
                    assert(components(file_path@)[idx as int] != components(self@)[idx as int]);
                }
                return None;
            }
            proof {
                assert(components(pv@)[idx as int] == ranges_interp(pv@, pcs@)[idx as int]);
                assert(components(mv@)[idx as int] == ranges_interp(mv@, mcs@)[idx as int]);
            }
            idx += 1;
        }
        if pcs.len() == 0 {
            proof {
                assert(components(file_path@).len() == 0);
            }
            return None;
        }
        proof {
            assert(starts_with_path(file_path@, self@));
        }
        let p_count = pcs.len();
        let mut out = String::new();
        if p_abs {
            out.append("/");
        }
        proof {
            reveal_strlit("/");
            assert("/"@ =~= seq!['/']);
            assert(components(pv@).take(0) =~= Seq::<Seq<char>>::empty());
            assert(out@ =~= root_of(pv@) + join(components(pv@).take(0)));
        }
        let mut idx2: usize = 0;
        while idx2 < p_count
            invariant
                0 <= idx2 <= p_count,
                pv@ == file_path@,
                p_count == pcs@.len(),
                p_count > 0,
                ranges_ok(pv@, pcs@),
                ranges_interp(pv@, pcs@) == components(pv@),
                out@ == root_of(pv@) + join(components(pv@).take(idx2 as int)),
            decreases p_count - idx2,
        {
            if idx2 > 0 {
                out.append("/");
            }
            let pr = pcs[idx2];
            out.append(file_path.substring_char(pr.0, pr.1));
            proof {
                reveal_strlit("/");
                assert("/"@ =~= seq!['/']);
                let cs = components(pv@);
                assert(cs[idx2 as int] == ranges_interp(pv@, pcs@)[idx2 as int]);
                lemma_join_push(cs.take(idx2 as int), cs[idx2 as int]);
                assert(cs.take(idx2 + 1) =~= cs.take(idx2 as int).push(cs[idx2 as int]));
                assert(out@ =~= root_of(pv@) + join(cs.take(idx2 + 1)));
            }
            idx2 += 1;
        }
        out.append(".js");
        proof {
            assert(components(pv@).take(p_count as int) =~= components(pv@));
            assert(out@ =~= root_of(file_path@) + join(components(file_path@)) + ".js"@);
        }
        Some(out)
    }
}

/// The base name of `file_path`: its last component, if it has one.
pub fn file_name(file_path: &str) -> (r: Option<String>)
    ensures
        str_opt_matches(r, file_name_spec(file_path@)),
{
    let pv = chars_of(file_path);
    let pcs = scan_components(&pv);
    if pcs.len() == 0 {
        return None;
    }
    let pr = pcs[pcs.len() - 1];
    let out = String::from_str(file_path.substring_char(pr.0, pr.1));
    proof {
        let last = pcs@.len() - 1;
        assert(components(pv@)[last] == ranges_interp(pv@, pcs@)[last]);
        assert(out@ == components(file_path@).last());
    }
    Some(out)
}

} // verus!
