//! Path manipulation: normalization, parent directory and file name.
use vstd::prelude::*;
use vstd::string::StrSliceExecFns;
use vstd::string::StringExecFns;

verus! {

/// The pieces of `s` between slashes, as `str::split('/')` gives them: always at
/// least one, possibly empty.
pub open spec fn split_slash(s: Seq<char>) -> Seq<Seq<char>>
    decreases s.len(),
{
    if s.len() == 0 {
        seq![Seq::<char>::empty()]
    } else {
        let p = split_slash(s.drop_last());
        if s.last() == '/' {
            p.push(Seq::<char>::empty())
        } else {
            p.update(p.len() - 1, p.last().push(s.last()))
        }
    }
}

pub open spec fn is_dot(c: Seq<char>) -> bool {
    c.len() == 1 && c[0] == '.'
}

pub open spec fn is_dotdot(c: Seq<char>) -> bool {
    c.len() == 2 && c[0] == '.' && c[1] == '.'
}

/// One component applied to the stack of kept components: empty and "." are
/// dropped, ".." removes the last kept component unless that is ".." too (in a
/// relative path it is kept; at the root of an absolute path it is dropped).
pub open spec fn norm_step(parts: Seq<Seq<char>>, comp: Seq<char>, absolute: bool) -> Seq<Seq<char>> {
    if comp.len() == 0 || is_dot(comp) {
        parts
    } else if is_dotdot(comp) {
        if parts.len() > 0 && !is_dotdot(parts.last()) {
            parts.drop_last()
        } else if !absolute {
            parts.push(comp)
        } else {
            parts
        }
    } else {
        parts.push(comp)
    }
}

/// The components kept after applying `comps` from left to right.
pub open spec fn norm_parts(comps: Seq<Seq<char>>, absolute: bool) -> Seq<Seq<char>>
    decreases comps.len(),
{
    if comps.len() == 0 {
        Seq::empty()
    } else {
        norm_step(norm_parts(comps.drop_last(), absolute), comps.last(), absolute)
    }
}

/// The components joined with single slashes.
pub open spec fn join_parts(parts: Seq<Seq<char>>) -> Seq<char>
    decreases parts.len(),
{
    if parts.len() == 0 {
        Seq::empty()
    } else if parts.len() == 1 {
        parts[0]
    } else {
        join_parts(parts.drop_last()) + seq!['/'] + parts.last()
    }
}

/// The normalized path: "." and ".." resolved, repeated slashes collapsed, a trailing
/// slash dropped; "/" or "." when nothing is left.
pub open spec fn normalize_spec(s: Seq<char>) -> Seq<char> {
    let absolute = s.len() > 0 && s[0] == '/';
    let parts = norm_parts(split_slash(s), absolute);
    if parts.len() == 0 {
        if absolute { seq!['/'] } else { seq!['.'] }
    } else if absolute {
        seq!['/'] + join_parts(parts)
    } else {
        join_parts(parts)
    }
}

/// A component that names a directory entry: not empty, not "." and not "..".
pub open spec fn plain_component(c: Seq<char>) -> bool {
    c.len() > 0 && !is_dot(c) && !is_dotdot(c)
}

proof fn lemma_absolute_parts_plain(comps: Seq<Seq<char>>)
    ensures
        forall|i: int| 0 <= i < norm_parts(comps, true).len() ==> plain_component(#[trigger] norm_parts(comps, true)[i]),
    decreases comps.len(),
{
    if comps.len() > 0 {
        lemma_absolute_parts_plain(comps.drop_last());
        let prev = norm_parts(comps.drop_last(), true);
        let next = norm_parts(comps, true);
        assert forall|i: int| 0 <= i < next.len() implies plain_component(#[trigger] next[i]) by {
            if i < prev.len() {
                assert(next[i] == prev[i]);
            }
        }
    }
}

/// Normalization never climbs above the root: an absolute path normalizes to an
/// absolute path whose components are all plain names, with no "." or "..".
pub proof fn law_normalize_stays_under_root(s: Seq<char>)
    requires
        s.len() > 0,
        s[0] == '/',
    ensures
        normalize_spec(s).len() > 0,
        normalize_spec(s)[0] == '/',
        forall|i: int| 0 <= i < norm_parts(split_slash(s), true).len() ==> plain_component(
            #[trigger] norm_parts(split_slash(s), true)[i],
        ),
{
    lemma_absolute_parts_plain(split_slash(s));
}

/// Position of the last slash.
pub open spec fn last_slash(s: Seq<char>) -> Option<int>
    decreases s.len(),
{
    if s.len() == 0 {
        None
    } else if s.last() == '/' {
        Some(s.len() - 1)
    } else {
        last_slash(s.drop_last())
    }
}

/// The parent directory: everything before the last slash; "/" when that slash is the
/// first character, "." without a slash.
pub open spec fn parent_spec(s: Seq<char>) -> Seq<char> {
    match last_slash(s) {
        Some(p) => if p == 0 { seq!['/'] } else { s.subrange(0, p) },
        None => seq!['.'],
    }
}

/// The file name: everything after the last slash.
pub open spec fn basename_spec(s: Seq<char>) -> Seq<char> {
    match last_slash(s) {
        Some(p) => s.subrange(p + 1, s.len() as int),
        None => s,
    }
}

proof fn lemma_last_slash_bounds(s: Seq<char>)
    ensures
        last_slash(s) matches Some(p) ==> 0 <= p < s.len() && s[p] == '/'
            && forall|k: int| p < k < s.len() ==> s[k] != '/',
        last_slash(s) is None ==> forall|k: int| 0 <= k < s.len() ==> s[k] != '/',
    decreases s.len(),
{
    if s.len() > 0 {
        let d = s.drop_last();
        lemma_last_slash_bounds(d);
        if s.last() != '/' {
            assert forall|k: int| 0 <= k < s.len() - 1 implies s[k] == d[k] by {}
            if let Some(p) = last_slash(s) {
                assert(last_slash(s) == last_slash(d));
                assert forall|k: int| p < k < s.len() implies s[k] != '/' by {
                    if k < s.len() - 1 {
                        assert(s[k] == d[k]);
                    }
                }
            } else {
                assert forall|k: int| 0 <= k < s.len() implies s[k] != '/' by {
                    if k < s.len() - 1 {
                        assert(s[k] == d[k]);
                    }
                }
            }
        }
    }
}

fn find_last_slash(path: &str, n: usize) -> (r: Option<usize>)
    requires
        n == path@.len(),
    ensures
        match last_slash(path@) {
            Some(p) => r == Some(p as usize),
            None => r is None,
        },
{
    let mut i: usize = n;
    assert(path@.take(n as int) =~= path@);
    while i > 0
        invariant
            i <= n,
            n == path@.len(),
            last_slash(path@) == last_slash(path@.take(i as int)),
        decreases i,
    {
        assert(path@.take(i as int).drop_last() =~= path@.take(i - 1));
        if path.get_char(i - 1) == '/' {
            return Some(i - 1);
        }
        i = i - 1;
    }
    assert(path@.take(0) =~= Seq::<char>::empty());
    None
}

/// Get the parent directory of a path.
pub fn parent(path: &str) -> (r: &str)
    ensures
        r@ == parent_spec(path@),
{
    let n = path.unicode_len();
    proof {
        lemma_last_slash_bounds(path@);
        reveal_strlit("/");
        reveal_strlit(".");
    }
    match find_last_slash(path, n) {
        Some(0) => "/",
        Some(pos) => path.substring_char(0, pos),
        None => ".",
    }
}

/// Get the file name component of a path.
pub fn basename(path: &str) -> (r: &str)
    ensures
        r@ == basename_spec(path@),
{
    let n = path.unicode_len();
    proof {
        lemma_last_slash_bounds(path@);
    }
    match find_last_slash(path, n) {
        Some(pos) => path.substring_char(pos + 1, n),
        None => path,
    }
}

/// Every range lies inside `s`.
pub open spec fn ranges_ok(s: Seq<char>, parts: Seq<(usize, usize)>) -> bool {
    forall|k: int| 0 <= k < parts.len() ==> #[trigger] parts[k].0 <= parts[k].1 && parts[k].1 <= s.len()
}

/// The components a list of ranges of `s` denotes.
pub open spec fn ranges_view(s: Seq<char>, parts: Seq<(usize, usize)>) -> Seq<Seq<char>> {
    Seq::new(parts.len(), |k: int| s.subrange(parts[k].0 as int, parts[k].1 as int))
}

fn range_is_dotdot(path: &str, a: usize, b: usize) -> (r: bool)
    requires
        a <= b <= path@.len(),
    ensures
        r == is_dotdot(path@.subrange(a as int, b as int)),
{
    b - a == 2 && path.get_char(a) == '.' && path.get_char(a + 1) == '.'
}

/// Apply the component `path[a..b]` to the kept components.
fn apply_component(path: &str, parts: &mut Vec<(usize, usize)>, a: usize, b: usize, absolute: bool)
    requires
        a <= b <= path@.len(),
        ranges_ok(path@, old(parts)@),
    ensures
        ranges_ok(path@, final(parts)@),
        ranges_view(path@, final(parts)@) == norm_step(ranges_view(path@, old(parts)@), path@.subrange(a as int, b as int), absolute),
{
    let ghost comp = path@.subrange(a as int, b as int);
    let ghost before = ranges_view(path@, parts@);
    if b == a || (b - a == 1 && path.get_char(a) == '.') {
        return;
    }
    if range_is_dotdot(path, a, b) {
        let n = parts.len();
        if n > 0 {
            let (la, lb) = parts[n - 1];
            if !range_is_dotdot(path, la, lb) {
                parts.pop();
                assert(ranges_view(path@, parts@) =~= before.drop_last());
                return;
            }
        }
        if !absolute {
            parts.push((a, b));
            assert(ranges_view(path@, parts@) =~= before.push(comp));
        }
        return;
    }
    parts.push((a, b));
    assert(ranges_view(path@, parts@) =~= before.push(comp));
}

/// Normalize a path: resolve "." and "..", collapse multiple slashes.
pub fn normalize(path: &str) -> (r: String)
    ensures
        r@ == normalize_spec(path@),
{
    let n = path.unicode_len();
    let absolute = n > 0 && path.get_char(0) == '/';
    let ghost s = path@;
    let mut parts: Vec<(usize, usize)> = Vec::new();
    let mut start: usize = 0;
    let mut i: usize = 0;
    proof {
        assert(s.take(0) =~= Seq::<char>::empty());
        assert(split_slash(s.take(0)).drop_last() =~= Seq::<Seq<char>>::empty());
        assert(s.subrange(0, 0) =~= Seq::<char>::empty());
    }
    while i < n
        invariant
            n == s.len(),
            s == path@,
            absolute == (s.len() > 0 && s[0] == '/'),
            start <= i <= n,
            ranges_ok(s, parts@),
            ranges_view(s, parts@) == norm_parts(split_slash(s.take(i as int)).drop_last(), absolute),
            split_slash(s.take(i as int)).len() > 0,
            split_slash(s.take(i as int)).last() == s.subrange(start as int, i as int),
        decreases n - i,
    {
        let ghost sp = split_slash(s.take(i as int));
        proof {
            assert(s.take(i + 1).drop_last() =~= s.take(i as int));
            assert(s.take(i + 1).last() == s[i as int]);
        }
        if path.get_char(i) == '/' {
            apply_component(path, &mut parts, start, i, absolute);
            proof {
                let sp2 = split_slash(s.take(i + 1));
                assert(sp2 == sp.push(Seq::<char>::empty()));
                assert(sp2.drop_last() =~= sp);
                assert(sp.drop_last().push(sp.last()) =~= sp);
                assert(s.subrange(i + 1, i + 1) =~= Seq::<char>::empty());
            }
            start = i + 1;
        } else {
            proof {
                let sp2 = split_slash(s.take(i + 1));
                assert(sp2 == sp.update(sp.len() - 1, sp.last().push(s[i as int])));
                assert(sp2.drop_last() =~= sp.drop_last());
                assert(s.subrange(start as int, i + 1) =~= s.subrange(start as int, i as int).push(s[i as int]));
            }
        }
        i = i + 1;
    }
    apply_component(path, &mut parts, start, n, absolute);
    proof {
        let sp = split_slash(s.take(n as int));
        assert(s.take(n as int) =~= s);
        assert(sp.drop_last().push(sp.last()) =~= sp);
        assert(ranges_view(s, parts@) == norm_parts(split_slash(s), absolute));
        reveal_strlit("/");
        reveal_strlit(".");
    }
    let ghost pv = ranges_view(s, parts@);
    if parts.len() == 0 {
        if absolute {
            return String::from_str("/");
        }
        return String::from_str(".");
    }
    let mut result = if absolute { String::from_str("/") } else { String::from_str("") };
    proof {
        reveal_strlit("");
    }
    let ghost prefix: Seq<char> = if absolute { seq!['/'] } else { Seq::empty() };
    let mut k: usize = 0;
    while k < parts.len()
        invariant
            0 <= k <= parts@.len(),
            parts@.len() > 0,
            pv == ranges_view(s, parts@),
            s == path@,
            ranges_ok(s, parts@),
            result@ == prefix + join_parts(pv.take(k as int)),
        decreases parts@.len() - k,
    {
        proof {
            assert(pv.take(k + 1).drop_last() =~= pv.take(k as int));
            assert(pv.take(k + 1).last() == pv[k as int]);
        }
        if k > 0 {
            result.append("/");
            proof {
                reveal_strlit("/");
            }
        }
        let (a, b) = parts[k];
        result.append(path.substring_char(a, b));
        proof {
            if k == 0 {
                assert(pv.take(1) =~= seq![pv[0]]);
                assert(join_parts(pv.take(0)) =~= Seq::<char>::empty());
                assert(result@ =~= prefix + join_parts(pv.take(1)));
            } else {
                assert(result@ =~= prefix + join_parts(pv.take(k + 1)));
            }
        }
        k = k + 1;
    }
    proof {
        assert(pv.take(pv.len() as int) =~= pv);
        if !absolute {
            assert(prefix + join_parts(pv) =~= join_parts(pv));
        }
    }
    result
}


/// `c` holds no slash.
pub open spec fn no_slash(c: Seq<char>) -> bool {
    forall|k: int| 0 <= k < c.len() ==> c[k] != '/'
}

/// Components as normalization leaves them: plain names, or ".." at the front of a
/// relative path; none holds a slash.
pub open spec fn normal_parts(p: Seq<Seq<char>>, absolute: bool) -> bool {
    &&& forall|i: int| 0 <= i < p.len() ==> #[trigger] p[i].len() > 0 && !is_dot(p[i]) && no_slash(p[i])
        && (absolute ==> !is_dotdot(p[i]))
    &&& forall|i: int, j: int| 0 <= i < j < p.len() && is_dotdot(#[trigger] p[j]) ==> is_dotdot(#[trigger] p[i])
}

proof fn lemma_split_no_slash(s: Seq<char>)
    ensures
        split_slash(s).len() >= 1,
        forall|i: int| 0 <= i < split_slash(s).len() ==> no_slash(#[trigger] split_slash(s)[i]),
        no_slash(s) ==> split_slash(s) == seq![s],
    decreases s.len(),
{
    if s.len() > 0 {
        let d = s.drop_last();
        lemma_split_no_slash(d);
        let p = split_slash(d);
        if s.last() == '/' {
            assert(!no_slash(s)) by {
                assert(s[s.len() - 1] == '/');
            }
            assert forall|i: int| 0 <= i < split_slash(s).len() implies no_slash(#[trigger] split_slash(s)[i]) by {
                if i < p.len() {
                    assert(split_slash(s)[i] == p[i]);
                }
            }
        } else {
            assert forall|i: int| 0 <= i < split_slash(s).len() implies no_slash(#[trigger] split_slash(s)[i]) by {
                if i < p.len() - 1 {
                    assert(split_slash(s)[i] == p[i]);
                } else {
                    let l = p.last().push(s.last());
                    assert(split_slash(s)[i] == l);
                    assert forall|k: int| 0 <= k < l.len() implies l[k] != '/' by {
                        if k < l.len() - 1 {
                            assert(l[k] == p.last()[k]);
                            assert(no_slash(p[p.len() - 1]));
                        }
                    }
                }
            }
            if no_slash(s) {
                assert(no_slash(d)) by {
                    assert forall|k: int| 0 <= k < d.len() implies d[k] != '/' by {
                        assert(d[k] == s[k]);
                    }
                }
                assert(p == seq![d]);
                assert(d.push(s.last()) =~= s);
                assert(split_slash(s) =~= seq![s]);
            }
        }
    } else {
        assert(s =~= Seq::<char>::empty());
        assert(split_slash(s) =~= seq![s]);
    }
}

/// Splitting `a`, a slash, then `b` splits `a` and `b` apart.
proof fn lemma_split_concat(a: Seq<char>, b: Seq<char>)
    ensures
        split_slash(a + seq!['/'] + b) == split_slash(a) + split_slash(b),
    decreases b.len(),
{
    lemma_split_no_slash(a);
    if b.len() == 0 {
        assert(a + seq!['/'] + b =~= (a + seq!['/'] + b).drop_last().push('/'));
        assert((a + seq!['/'] + b).drop_last() =~= a);
        assert(split_slash(a) + split_slash(b) =~= split_slash(a).push(Seq::<char>::empty()));
    } else {
        let b2 = b.drop_last();
        lemma_split_concat(a, b2);
        lemma_split_no_slash(b2);
        let whole = a + seq!['/'] + b;
        assert(whole.drop_last() =~= a + seq!['/'] + b2);
        assert(whole.last() == b.last());
        let pa = split_slash(a);
        let pb = split_slash(b2);
        if b.last() == '/' {
            assert(split_slash(whole) =~= (pa + pb).push(Seq::<char>::empty()));
            assert(split_slash(b) =~= pb.push(Seq::<char>::empty()));
            assert((pa + pb).push(Seq::<char>::empty()) =~= pa + pb.push(Seq::<char>::empty()));
        } else {
            let q = pa + pb;
            assert(q.last() == pb.last());
            assert(split_slash(whole) == q.update(q.len() - 1, q.last().push(b.last())));
            assert(split_slash(b) == pb.update(pb.len() - 1, pb.last().push(b.last())));
            assert(q.update(q.len() - 1, q.last().push(b.last())) =~= pa + pb.update(pb.len() - 1, pb.last().push(b.last())));
        }
    }
}

/// Joining slash-free components and splitting the result gives them back.
proof fn lemma_split_join(p: Seq<Seq<char>>)
    requires
        p.len() > 0,
        forall|i: int| 0 <= i < p.len() ==> no_slash(#[trigger] p[i]),
    ensures
        split_slash(join_parts(p)) == p,
    decreases p.len(),
{
    if p.len() == 1 {
        lemma_split_no_slash(p[0]);
        assert(split_slash(p[0]) =~= p);
    } else {
        let d = p.drop_last();
        assert forall|i: int| 0 <= i < d.len() implies no_slash(#[trigger] d[i]) by {
            assert(d[i] == p[i]);
        }
        lemma_split_join(d);
        lemma_split_concat(join_parts(d), p.last());
        lemma_split_no_slash(p.last());
        assert(no_slash(p[p.len() - 1]));
        assert(d + seq![p.last()] =~= p);
    }
}

/// Normalization leaves components in normal form.
proof fn lemma_norm_parts_normal(comps: Seq<Seq<char>>, absolute: bool)
    requires
        forall|i: int| 0 <= i < comps.len() ==> no_slash(#[trigger] comps[i]),
    ensures
        normal_parts(norm_parts(comps, absolute), absolute),
    decreases comps.len(),
{
    if comps.len() > 0 {
        let d = comps.drop_last();
        assert forall|i: int| 0 <= i < d.len() implies no_slash(#[trigger] d[i]) by {
            assert(d[i] == comps[i]);
        }
        lemma_norm_parts_normal(d, absolute);
        let prev = norm_parts(d, absolute);
        let c = comps.last();
        assert(no_slash(comps[comps.len() - 1]));
        let next = norm_parts(comps, absolute);
        if c.len() == 0 || is_dot(c) {
        } else if is_dotdot(c) {
            if prev.len() > 0 && !is_dotdot(prev.last()) {
                assert forall|i: int| 0 <= i < next.len() implies #[trigger] next[i].len() > 0 && !is_dot(next[i]) && no_slash(next[i])
                    && (absolute ==> !is_dotdot(next[i])) by {
                    assert(next[i] == prev[i]);
                }
                assert forall|i: int, j: int| 0 <= i < j < next.len() && is_dotdot(#[trigger] next[j]) implies is_dotdot(#[trigger] next[i]) by {
                    assert(next[i] == prev[i]);
                    assert(next[j] == prev[j]);
                }
            } else if !absolute {
                assert forall|i: int| 0 <= i < next.len() implies #[trigger] next[i].len() > 0 && !is_dot(next[i]) && no_slash(next[i])
                    && (absolute ==> !is_dotdot(next[i])) by {
                    if i < prev.len() {
                        assert(next[i] == prev[i]);
                    }
                }
                assert forall|i: int, j: int| 0 <= i < j < next.len() && is_dotdot(#[trigger] next[j]) implies is_dotdot(#[trigger] next[i]) by {
                    assert(next[i] == prev[i]);
                    if j < prev.len() {
                        assert(next[j] == prev[j]);
                    } else {
                        assert(is_dotdot(prev[prev.len() - 1]));
                    }
                }
            }
        } else {
            assert forall|i: int| 0 <= i < next.len() implies #[trigger] next[i].len() > 0 && !is_dot(next[i]) && no_slash(next[i])
                && (absolute ==> !is_dotdot(next[i])) by {
                if i < prev.len() {
                    assert(next[i] == prev[i]);
                }
            }
            assert forall|i: int, j: int| 0 <= i < j < next.len() && is_dotdot(#[trigger] next[j]) implies is_dotdot(#[trigger] next[i]) by {
                assert(next[i] == prev[i]);
                assert(j < prev.len());
                assert(next[j] == prev[j]);
            }
        }
    }
}

/// Components in normal form, after any leading empty ones, normalize to themselves.
proof fn lemma_norm_parts_fixed(lead: Seq<Seq<char>>, p: Seq<Seq<char>>, absolute: bool)
    requires
        normal_parts(p, absolute),
        forall|i: int| 0 <= i < lead.len() ==> (#[trigger] lead[i]).len() == 0,
    ensures
        norm_parts(lead + p, absolute) == p,
    decreases lead.len() + p.len(),
{
    if p.len() == 0 {
        if lead.len() > 0 {
            lemma_norm_parts_fixed(lead.drop_last(), p, absolute);
            assert((lead + p).drop_last() =~= lead.drop_last() + p);
            assert(lead.drop_last() + p =~= lead.drop_last());
            assert(lead + p =~= lead);
            assert(lead.last().len() == 0);
        } else {
            assert(lead + p =~= Seq::<Seq<char>>::empty());
        }
    } else {
        let d = p.drop_last();
        assert(normal_parts(d, absolute)) by {
            assert forall|i: int| 0 <= i < d.len() implies #[trigger] d[i].len() > 0 && !is_dot(d[i]) && no_slash(d[i])
                && (absolute ==> !is_dotdot(d[i])) by {
                assert(d[i] == p[i]);
            }
            assert forall|i: int, j: int| 0 <= i < j < d.len() && is_dotdot(#[trigger] d[j]) implies is_dotdot(#[trigger] d[i]) by {
                assert(d[i] == p[i]);
                assert(d[j] == p[j]);
            }
        }
        lemma_norm_parts_fixed(lead, d, absolute);
        assert((lead + p).drop_last() =~= lead + d);
        assert((lead + p).last() == p.last());
        let c = p.last();
        assert(c.len() > 0 && !is_dot(c)) by {
            assert(p[p.len() - 1] == c);
        }
        if is_dotdot(c) {
            assert(!absolute) by {
                assert(p[p.len() - 1] == c);
            }
            if d.len() > 0 {
                assert(is_dotdot(p[d.len() - 1])) by {
                    assert(is_dotdot(p[p.len() - 1]));
                }
                assert(d.last() == p[d.len() - 1]);
            }
        }
        assert(d.push(c) =~= p);
    }
}

/// Normalizing a normalized path changes nothing.
pub proof fn law_normalize_idempotent(s: Seq<char>)
    ensures
        normalize_spec(normalize_spec(s)) == normalize_spec(s),
{
    let absolute = s.len() > 0 && s[0] == '/';
    let comps = split_slash(s);
    lemma_split_no_slash(s);
    lemma_norm_parts_normal(comps, absolute);
    let parts = norm_parts(comps, absolute);
    let n = normalize_spec(s);
    if parts.len() == 0 {
        if absolute {
            assert(seq!['/'] =~= Seq::<char>::empty() + seq!['/'] + Seq::<char>::empty());
            lemma_split_concat(Seq::<char>::empty(), Seq::<char>::empty());
            lemma_split_no_slash(Seq::<char>::empty());
            let e = seq![Seq::<char>::empty(), Seq::<char>::empty()];
            assert(split_slash(n) =~= e);
            lemma_norm_parts_fixed(e, Seq::<Seq<char>>::empty(), true);
            assert(e + Seq::<Seq<char>>::empty() =~= e);
            assert(n[0] == '/');
            assert(norm_parts(split_slash(n), true).len() == 0);
        } else {
            assert(n == seq!['.']);
            assert(no_slash(n));
            lemma_split_no_slash(n);
            let c = split_slash(n);
            assert(c == seq![n]);
            assert(c.drop_last() =~= Seq::<Seq<char>>::empty());
            assert(c.last() == n);
            assert(is_dot(n));
            assert(norm_parts(c.drop_last(), false) =~= Seq::<Seq<char>>::empty());
            assert(norm_parts(c, false) == norm_step(norm_parts(c.drop_last(), false), n, false));
            assert(norm_parts(split_slash(n), false).len() == 0);
        }
    } else {
        assert forall|i: int| 0 <= i < parts.len() implies no_slash(#[trigger] parts[i]) by {}
        lemma_split_join(parts);
        let j = join_parts(parts);
        if absolute {
            assert(n == seq!['/'] + j);
            assert(n =~= Seq::<char>::empty() + seq!['/'] + j);
            lemma_split_concat(Seq::<char>::empty(), j);
            lemma_split_no_slash(Seq::<char>::empty());
            assert(split_slash(n) == seq![Seq::<char>::empty()] + parts);
            lemma_norm_parts_fixed(seq![Seq::<char>::empty()], parts, true);
            assert(n[0] == '/');
            assert(norm_parts(split_slash(n), true) == parts);
        } else {
            lemma_join_first(parts);
            assert(n == j);
            assert(!(n.len() > 0 && n[0] == '/'));
            lemma_norm_parts_fixed(Seq::<Seq<char>>::empty(), parts, false);
            assert(Seq::<Seq<char>>::empty() + parts =~= parts);
            assert(norm_parts(split_slash(n), false) == parts);
        }
    }
}

/// Joining non-empty slash-free components gives a path with no slash at either end
/// and no two slashes in a row.
proof fn lemma_join_clean(p: Seq<Seq<char>>)
    requires
        p.len() > 0,
        forall|i: int| 0 <= i < p.len() ==> (#[trigger] p[i]).len() > 0 && no_slash(p[i]),
    ensures
        join_parts(p).len() > 0,
        join_parts(p)[0] != '/',
        join_parts(p).last() != '/',
        forall|k: int| 0 <= k < join_parts(p).len() - 1 ==> !(#[trigger] join_parts(p)[k] == '/' && join_parts(p)[k + 1] == '/'),
    decreases p.len(),
{
    assert(p[0].len() > 0 && no_slash(p[0]));
    if p.len() == 1 {
        assert(p[0][0] != '/');
        assert(p[0][p[0].len() - 1] != '/');
    } else {
        let d = p.drop_last();
        assert forall|i: int| 0 <= i < d.len() implies (#[trigger] d[i]).len() > 0 && no_slash(d[i]) by {
            assert(d[i] == p[i]);
        }
        lemma_join_clean(d);
        let a = join_parts(d);
        let l = p.last();
        assert(l.len() > 0 && no_slash(l)) by {
            assert(p[p.len() - 1] == l);
        }
        let j = join_parts(p);
        assert(j == a + seq!['/'] + l);
        assert(j[0] == a[0]);
        assert(j.last() == l[l.len() - 1]);
        assert forall|k: int| 0 <= k < j.len() - 1 implies !(#[trigger] j[k] == '/' && j[k + 1] == '/') by {
            if k < a.len() - 1 {
                assert(j[k] == a[k] && j[k + 1] == a[k + 1]);
            } else if k == a.len() - 1 {
                assert(j[k] == a.last());
            } else if k == a.len() {
                assert(j[k + 1] == l[0]);
            } else {
                assert(j[k] == l[k - a.len() - 1]);
            }
        }
    }
}

/// Normalization gives a clean path: never empty, absolute exactly when the input is,
/// no two slashes in a row, no trailing slash (but for "/"), no "." component (but
/// for "." itself), and in an absolute path no ".." component.
pub proof fn law_normalize_clean(s: Seq<char>)
    ensures
        normalize_spec(s).len() > 0,
        (normalize_spec(s)[0] == '/') <==> (s.len() > 0 && s[0] == '/'),
        forall|k: int| 0 <= k < normalize_spec(s).len() - 1
            ==> !(#[trigger] normalize_spec(s)[k] == '/' && normalize_spec(s)[k + 1] == '/'),
        normalize_spec(s).len() > 1 ==> normalize_spec(s).last() != '/',
        normalize_spec(s) == seq!['.'] || forall|i: int| 0 <= i < split_slash(normalize_spec(s)).len()
            ==> !is_dot(#[trigger] split_slash(normalize_spec(s))[i]),
        s.len() > 0 && s[0] == '/' ==> forall|i: int| 0 <= i < split_slash(normalize_spec(s)).len()
            ==> !is_dotdot(#[trigger] split_slash(normalize_spec(s))[i]),
{
    let absolute = s.len() > 0 && s[0] == '/';
    let comps = split_slash(s);
    lemma_split_no_slash(s);
    lemma_norm_parts_normal(comps, absolute);
    let parts = norm_parts(comps, absolute);
    let n = normalize_spec(s);
    if parts.len() == 0 {
        if absolute {
            assert(n == seq!['/']);
            assert(seq!['/'] =~= Seq::<char>::empty() + seq!['/'] + Seq::<char>::empty());
            lemma_split_concat(Seq::<char>::empty(), Seq::<char>::empty());
            lemma_split_no_slash(Seq::<char>::empty());
            assert(split_slash(n) =~= seq![Seq::<char>::empty(), Seq::<char>::empty()]);
        } else {
            assert(n == seq!['.']);
        }
    } else {
        assert forall|i: int| 0 <= i < parts.len() implies (#[trigger] parts[i]).len() > 0 && no_slash(parts[i]) by {}
        lemma_split_join(parts);
        lemma_join_clean(parts);
        let j = join_parts(parts);
        if absolute {
            assert(n == seq!['/'] + j);
            assert(n =~= Seq::<char>::empty() + seq!['/'] + j);
            lemma_split_concat(Seq::<char>::empty(), j);
            lemma_split_no_slash(Seq::<char>::empty());
            assert(split_slash(n) == seq![Seq::<char>::empty()] + parts);
            assert forall|k: int| 0 <= k < n.len() - 1 implies !(#[trigger] n[k] == '/' && n[k + 1] == '/') by {
                if k == 0 {
                    assert(n[1] == j[0]);
                } else {
                    assert(n[k] == j[k - 1] && n[k + 1] == j[k]);
                }
            }
            assert(n.last() == j.last());
            assert forall|i: int| 0 <= i < split_slash(n).len() implies !is_dot(#[trigger] split_slash(n)[i])
                && !is_dotdot(split_slash(n)[i]) by {
                if i > 0 {
                    assert(split_slash(n)[i] == parts[i - 1]);
                }
            }
        } else {
            lemma_join_first(parts);
            assert(n == j);
            assert(split_slash(n) == parts);
        }
    }
}

/// The join of components whose first one is a non-empty slash-free name starts
/// with that name's first character.
proof fn lemma_join_first(p: Seq<Seq<char>>)
    requires
        p.len() > 0,
        p[0].len() > 0,
    ensures
        join_parts(p).len() > 0,
        join_parts(p)[0] == p[0][0],
    decreases p.len(),
{
    if p.len() > 1 {
        let d = p.drop_last();
        assert(d[0] == p[0]);
        lemma_join_first(d);
    }
}

} // verus!
