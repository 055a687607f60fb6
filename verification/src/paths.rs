use vstd::prelude::*;
use vstd::string::*;

verus! {

/// A `/`-separated path read as `std::path::Path::components` reads it on
/// Unix: whether it starts at the root, and its parts in order. Empty parts
/// (from repeated or trailing separators) are skipped, and so is `.` except
/// as the very first part.
pub struct PathScan {
    pub root: bool,
    pub parts: Seq<Seq<char>>,
    /// The part being read.
    pub current: Seq<char>,
    /// Whether the part being read is the path's first.
    pub first: bool,
}

/// Closes the part being read: `by_separator` tells whether a `/` ends it
/// (an empty first part ended by `/` means the path starts at the root).
pub open spec fn close_part(scan: PathScan, by_separator: bool) -> (bool, Seq<Seq<char>>) {
    let root = scan.root || (by_separator && scan.first && scan.current.len() == 0);
    let keep = scan.current.len() > 0 && (scan.first || scan.current != seq!['.']);
    (root, if keep { scan.parts.push(scan.current) } else { scan.parts })
}

/// Reads the path's characters from the left.
pub open spec fn scan_path(s: Seq<char>) -> PathScan
    decreases s.len(),
{
    if s.len() == 0 {
        PathScan { root: false, parts: Seq::empty(), current: Seq::empty(), first: true }
    } else {
        let before = scan_path(s.drop_last());
        if s.last() == '/' {
            let (root, parts) = close_part(before, true);
            PathScan { root, parts, current: Seq::empty(), first: false }
        } else {
            PathScan { current: before.current.push(s.last()), ..before }
        }
    }
}

/// The path's components: whether it starts at the root, and its parts.
pub open spec fn path_components(s: Seq<char>) -> (bool, Seq<Seq<char>>) {
    close_part(scan_path(s), false)
}

/// Two texts name the same path when their components agree.
pub open spec fn same_path(a: Seq<char>, b: Seq<char>) -> bool {
    path_components(a) == path_components(b)
}

/// The parts joined by single `/`.
pub open spec fn join_parts(parts: Seq<Seq<char>>) -> Seq<char>
    decreases parts.len(),
{
    if parts.len() == 0 {
        Seq::empty()
    } else if parts.len() == 1 {
        parts[0]
    } else {
        join_parts(parts.drop_last()) + seq!['/'] + parts.last()
    }
}

/// The written form of components: `/` for the root, then the parts joined
/// by single `/`.
pub open spec fn components_text(c: (bool, Seq<Seq<char>>)) -> Seq<char> {
    (if c.0 { seq!['/'] } else { Seq::empty() }) + join_parts(c.1)
}

/// The plain written form of a path: no repeated or trailing separators and
/// no `.` parts but a leading one.
pub open spec fn path_text(s: Seq<char>) -> Seq<char> {
    components_text(path_components(s))
}

/// Components as a path can have them: every part is non-empty and holds
/// no `/`, and only a first part of a path not starting at the root can be
/// `.`.
pub open spec fn well_formed_components(root: bool, parts: Seq<Seq<char>>) -> bool {
    forall|k: int| 0 <= k < parts.len() ==> {
        &&& (#[trigger] parts[k]).len() > 0
        &&& !parts[k].contains('/')
        &&& (k > 0 || root) ==> parts[k] != seq!['.']
    }
}

spec fn scan_invariant(scan: PathScan) -> bool {
    &&& well_formed_components(scan.root, scan.parts)
    &&& !scan.current.contains('/')
    &&& scan.first ==> !scan.root && scan.parts.len() == 0
}

proof fn lemma_scan_invariant(s: Seq<char>)
    ensures
        scan_invariant(scan_path(s)),
    decreases s.len(),
{
    if s.len() > 0 {
        lemma_scan_invariant(s.drop_last());
        let before = scan_path(s.drop_last());
        if s.last() != '/' {
            let cur = before.current.push(s.last());
            assert forall|j: int| 0 <= j < cur.len() implies cur[j] != '/' by {
                if j < before.current.len() {
                    assert(cur[j] == before.current[j]);
                }
            }
        } else {
            lemma_close_part_well_formed(before, true);
        }
    }
}

proof fn lemma_close_part_well_formed(scan: PathScan, by_separator: bool)
    requires
        scan_invariant(scan),
    ensures
        well_formed_components(close_part(scan, by_separator).0, close_part(scan, by_separator).1),
        !scan.first ==> close_part(scan, by_separator).0 == scan.root,
{
    let (root, parts) = close_part(scan, by_separator);
    let keep = scan.current.len() > 0 && (scan.first || scan.current != seq!['.']);
    if keep {
        assert(root == scan.root);
    }
    assert forall|k: int| 0 <= k < parts.len() implies {
        &&& (#[trigger] parts[k]).len() > 0
        &&& !parts[k].contains('/')
        &&& (k > 0 || root) ==> parts[k] != seq!['.']
    } by {
        if k < scan.parts.len() {
            assert(parts[k] == scan.parts[k]);
            assert(!scan.first);
            assert(root == scan.root);
        } else {
            assert(keep);
            assert(k == scan.parts.len());
            assert(parts[k] == scan.current);
            if scan.first {
                assert(k == 0);
                assert(!root);
            } else {
                assert(scan.current != seq!['.']);
            }
        }
    }
}

/// A path's components are always ones a path can have.
proof fn lemma_components_well_formed(s: Seq<char>)
    ensures
        well_formed_components(path_components(s).0, path_components(s).1),
{
    lemma_scan_invariant(s);
    lemma_close_part_well_formed(scan_path(s), false);
}

/// Reading on through characters that are not `/` only extends the part
/// being read.
proof fn lemma_scan_extend(x: Seq<char>, w: Seq<char>)
    requires
        !w.contains('/'),
    ensures
        scan_path(x + w) == (PathScan { current: scan_path(x).current + w, ..scan_path(x) }),
    decreases w.len(),
{
    if w.len() == 0 {
        assert(x + w =~= x);
        assert(scan_path(x).current + w =~= scan_path(x).current);
    } else {
        let w0 = w.drop_last();
        assert(!w0.contains('/')) by {
            assert forall|j: int| 0 <= j < w0.len() implies w0[j] != '/' by {
                assert(w0[j] == w[j]);
            }
        }
        lemma_scan_extend(x, w0);
        assert((x + w).drop_last() =~= x + w0);
        assert((x + w).last() == w.last());
        assert(w[w.len() - 1] != '/');
        assert(scan_path(x).current + w0 + seq![w.last()] =~= scan_path(x).current + w);
        assert((scan_path(x).current + w0).push(w.last()) =~= scan_path(x).current + w);
    }
}

/// How the scan stands after reading the written form of components.
spec fn scan_of_text(r: bool, p: Seq<Seq<char>>) -> PathScan {
    if p.len() == 0 {
        if r {
            PathScan { root: true, parts: Seq::empty(), current: Seq::empty(), first: false }
        } else {
            PathScan { root: false, parts: Seq::empty(), current: Seq::empty(), first: true }
        }
    } else {
        PathScan { root: r, parts: p.drop_last(), current: p.last(), first: p.len() == 1 && !r }
    }
}

proof fn lemma_scan_of_text(r: bool, p: Seq<Seq<char>>)
    requires
        well_formed_components(r, p),
    ensures
        scan_path(components_text((r, p))) == scan_of_text(r, p),
    decreases p.len(),
{
    let prefix: Seq<char> = if r { seq!['/'] } else { Seq::empty() };
    if p.len() == 0 {
        assert(components_text((r, p)) =~= prefix);
        if r {
            assert(prefix.drop_last() =~= Seq::<char>::empty());
            assert(prefix.last() == '/');
            let init = scan_path(Seq::<char>::empty());
            assert(scan_path(prefix) == PathScan { root: true, parts: Seq::<Seq<char>>::empty(), current: Seq::<char>::empty(), first: false });
        } else {
            assert(scan_path(prefix) == scan_of_text(r, p));
        }
        assert(scan_path(components_text((r, p))) == scan_of_text(r, p));
    } else if p.len() == 1 {
        assert(components_text((r, p)) =~= prefix + p[0]);
        assert(p[0].len() > 0 && !p[0].contains('/'));
        lemma_scan_extend(prefix, p[0]);
        lemma_scan_of_text(r, Seq::empty());
        assert(components_text((r, Seq::<Seq<char>>::empty())) =~= prefix);
        assert(Seq::<char>::empty() + p[0] =~= p[0]);
        assert(p.drop_last() =~= Seq::<Seq<char>>::empty());
        assert(scan_path(components_text((r, p))) == scan_of_text(r, p));
    } else {
        let front = p.drop_last();
        let last = p.last();
        assert(well_formed_components(r, front)) by {
            assert forall|k: int| 0 <= k < front.len() implies {
                &&& (#[trigger] front[k]).len() > 0
                &&& !front[k].contains('/')
                &&& (k > 0 || r) ==> front[k] != seq!['.']
            } by {
                assert(front[k] == p[k]);
            }
        }
        lemma_scan_of_text(r, front);
        let t = components_text((r, front));
        assert(components_text((r, p)) =~= (t + seq!['/']) + last);
        assert((t + seq!['/']).drop_last() =~= t);
        assert((t + seq!['/']).last() == '/');
        let k = front.len() - 1;
        assert(front.last() == p[k]);
        assert(front.drop_last().push(front.last()) =~= front);
        assert(p[p.len() - 1] == last);
        lemma_scan_extend(t + seq!['/'], last);
        assert(Seq::<char>::empty() + last =~= last);
        assert(scan_path(t + seq!['/']) == PathScan { root: r, parts: front, current: Seq::<char>::empty(), first: false });
        assert(scan_path(components_text((r, p))) == scan_of_text(r, p));
    }
}

/// Reading back the written form of a path's components gives the same
/// components.
proof fn lemma_components_round_trip(c: (bool, Seq<Seq<char>>))
    requires
        well_formed_components(c.0, c.1),
    ensures
        path_components(components_text(c)) == c,
{
    lemma_scan_of_text(c.0, c.1);
    if c.1.len() > 0 {
        assert(c.1.drop_last().push(c.1.last()) =~= c.1);
        assert(c.1[c.1.len() - 1] == c.1.last());
    }
}

/// The plain written form of a path names the same path, and two texts
/// name the same path exactly when their plain forms agree.
pub proof fn law_plain_form_is_same_path(a: Seq<char>, b: Seq<char>)
    ensures
        same_path(path_text(a), a),
        same_path(a, b) <==> path_text(a) == path_text(b),
{
    lemma_components_well_formed(a);
    lemma_components_well_formed(b);
    lemma_components_round_trip(path_components(a));
    lemma_components_round_trip(path_components(b));
}

/// Writes `path` in its plain form (see `path_text`).
pub fn normalise_path(path: &str) -> (r: String)
    ensures
        r@ == path_text(path@),
{
    proof {
        reveal_strlit("/");
    }
    let n = path.unicode_len();
    let mut root = false;
    let mut out = String::new();
    let mut count: usize = 0;
    let mut start: usize = 0;
    let mut first = true;
    let ghost mut parts: Seq<Seq<char>> = Seq::empty();
    let mut i: usize = 0;
    proof {
        assert(path@.take(0) =~= Seq::<char>::empty());
        assert(path@.subrange(0, 0) =~= Seq::<char>::empty());
        assert(out@ =~= components_text((false, parts)));
    }
    while i < n
        invariant
            n == path@.len(),
            i <= n,
            start <= i,
            count == parts.len(),
            count <= i,
            "/"@ == seq!['/'],
            scan_path(path@.take(i as int)) == (PathScan {
                root,
                parts,
                current: path@.subrange(start as int, i as int),
                first,
            }),
            out@ == components_text((root, parts)),
            root ==> !first,
        decreases n - i,
    {
        let ch = path.get_char(i);
        proof {
            assert(path@.take(i as int + 1).drop_last() =~= path@.take(i as int));
            assert(path@.take(i as int + 1).last() == ch);
        }
        if ch == '/' {
            let ghost scan = PathScan { root, parts, current: path@.subrange(start as int, i as int), first };
            if first && start == i {
                root = true;
                out.append("/");
                proof {
                    assert(out@ =~= components_text((true, parts)));
                }
            }
            let dot = i == start + 1 && path.get_char(start) == '.';
            proof {
                let cur = path@.subrange(start as int, i as int);
                if i == start + 1 {
                    assert(cur.len() == 1 && cur[0] == path@[start as int]);
                    assert(dot <==> cur =~= seq!['.']);
                } else {
                    assert(cur.len() != 1);
                    assert(cur != seq!['.']);
                }
            }
            if start < i && (first || !dot) {
                let part = path.substring_char(start, i);
                proof {
                    let p2 = parts.push(part@);
                    assert(p2.drop_last() =~= parts);
                    if count > 0 {
                        assert(join_parts(p2) == join_parts(parts) + seq!['/'] + part@);
                    } else {
                        assert(join_parts(p2) == part@);
                    }
                }
                if count > 0 {
                    out.append("/");
                }
                out.append(part);
                proof {
                    let p2 = parts.push(part@);
                    assert(out@ =~= components_text((root, p2)));
                    parts = p2;
                }
                count = count + 1;
            }
            proof {
                assert(close_part(scan, true) == (root, parts));
            }
            start = i + 1;
            first = false;
            proof {
                assert(path@.subrange(start as int, i as int + 1) =~= Seq::<char>::empty());
            }
        } else {
            proof {
                assert(path@.subrange(start as int, i as int + 1) =~= path@.subrange(start as int, i as int).push(ch));
            }
        }
        i = i + 1;
    }
    proof {
        assert(path@.take(n as int) =~= path@);
    }
    let ghost scan = PathScan { root, parts, current: path@.subrange(start as int, n as int), first };
    let dot = start < n && n - 1 == start && path.get_char(start) == '.';
    proof {
        let cur = path@.subrange(start as int, n as int);
        if n == start + 1 {
            assert(cur.len() == 1 && cur[0] == path@[start as int]);
            assert(dot <==> cur =~= seq!['.']);
        } else {
            assert(cur.len() != 1);
            assert(cur != seq!['.']);
        }
    }
    if start < n && (first || !dot) {
        let part = path.substring_char(start, n);
        proof {
            let p2 = parts.push(part@);
            assert(p2.drop_last() =~= parts);
            if count > 0 {
                assert(join_parts(p2) == join_parts(parts) + seq!['/'] + part@);
            } else {
                assert(join_parts(p2) == part@);
            }
        }
        if count > 0 {
            out.append("/");
        }
        out.append(part);
        proof {
            let p2 = parts.push(part@);
            assert(out@ =~= components_text((root, p2)));
            parts = p2;
        }
    }
    proof {
        assert(close_part(scan, false) == (root, parts));
    }
    out
}

} // verus!
