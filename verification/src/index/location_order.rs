//! Ordering results by source location: file path in `std::path::Path`
//! order (component by component), then line.
use vstd::prelude::*;
use crate::cpg::line_parser::{split_on, split_on_exec};
use crate::sorted::{lex_less, lex_lt, same_text};
use crate::text::{chars_of, eq_str};

verus! {

/// A component of a slash-separated path, as `std::path::Component` orders
/// them: the root, a leading `.`, `..`, then names.
pub enum PathPart {
    Root,
    Current,
    Parent,
    Name(Seq<char>),
}

/// The place of a component's kind in the order of components.
pub open spec fn part_rank(p: PathPart) -> int {
    match p {
        PathPart::Root => 0,
        PathPart::Current => 1,
        PathPart::Parent => 2,
        PathPart::Name(_) => 3,
    }
}

/// `a` comes before `b`: by kind, and names by their text.
pub open spec fn part_lt(a: PathPart, b: PathPart) -> bool {
    if part_rank(a) != part_rank(b) {
        part_rank(a) < part_rank(b)
    } else {
        match (a, b) {
            (PathPart::Name(x), PathPart::Name(y)) => lex_lt(x, y),
            _ => false,
        }
    }
}

/// Component lists in lexicographic order (a prefix first).
pub open spec fn parts_lt(a: Seq<PathPart>, b: Seq<PathPart>) -> bool
    decreases a.len(),
{
    if a.len() == 0 {
        b.len() > 0
    } else if b.len() == 0 {
        false
    } else if a[0] != b[0] {
        part_lt(a[0], b[0])
    } else {
        parts_lt(a.drop_first(), b.drop_first())
    }
}

/// The components of slash-separated segments: empty segments and `.` are
/// dropped, `..` is the parent.
pub open spec fn segment_parts(segs: Seq<Seq<char>>) -> Seq<PathPart>
    decreases segs.len(),
{
    if segs.len() == 0 {
        Seq::empty()
    } else {
        let s = segs.last();
        segment_parts(segs.drop_last()) + if s.len() == 0 || s == "."@ {
            Seq::<PathPart>::empty()
        } else if s == ".."@ {
            seq![PathPart::Parent]
        } else {
            seq![PathPart::Name(s)]
        }
    }
}

/// The components of a path: the root where it starts with `/`, a current
/// directory where a relative path starts with the segment `.`, then the
/// components of the other segments.
pub open spec fn path_parts(path: Seq<char>) -> Seq<PathPart> {
    let segs = split_on(path, '/');
    if path.len() > 0 && path[0] == '/' {
        seq![PathPart::Root] + segment_parts(segs)
    } else if segs.len() > 0 && segs[0] == "."@ {
        seq![PathPart::Current] + segment_parts(segs.drop_first())
    } else {
        segment_parts(segs)
    }
}

/// Location `a` comes before location `b`: by path, then by line.
pub open spec fn loc_lt(a: (Seq<char>, u32), b: (Seq<char>, u32)) -> bool {
    parts_lt(path_parts(a.0), path_parts(b.0)) || (path_parts(a.0) == path_parts(b.0) && a.1 < b.1)
}

/// The location of entry `i`.
pub open spec fn key_at(keys: Seq<(String, u32)>, i: usize) -> (Seq<char>, u32) {
    (keys[i as int].0@, keys[i as int].1)
}

/// Inserts entry `x` after every entry of `s` that does not come after it.
pub open spec fn insert_loc(s: Seq<usize>, x: usize, keys: Seq<(String, u32)>) -> Seq<usize>
    decreases s.len(),
{
    if s.len() == 0 {
        seq![x]
    } else if !loc_lt(key_at(keys, x), key_at(keys, s.last())) {
        s.push(x)
    } else {
        insert_loc(s.drop_last(), x, keys, ).push(s.last())
    }
}

/// The first `m` entries sorted by location; entries at equal locations keep
/// their order (a stable sort).
pub open spec fn sort_loc(keys: Seq<(String, u32)>, m: nat) -> Seq<usize>
    decreases m,
{
    if m == 0 {
        Seq::empty()
    } else {
        insert_loc(sort_loc(keys, (m - 1) as nat), (m - 1) as usize, keys)
    }
}

// ───────────────────────── code ─────────────────────────

/// A path component with its text.
enum Part {
    Root,
    Current,
    Parent,
    Name(Vec<char>),
}

spec fn part_view(p: Part) -> PathPart {
    match p {
        Part::Root => PathPart::Root,
        Part::Current => PathPart::Current,
        Part::Parent => PathPart::Parent,
        Part::Name(v) => PathPart::Name(v@),
    }
}

spec fn parts_view(ps: Seq<Part>) -> Seq<PathPart> {
    ps.map_values(|p: Part| part_view(p))
}

/// Appends the components of `segs[from..]` to `out`.
fn push_segment_parts(segs: &Vec<Vec<char>>, from: usize, out: &mut Vec<Part>)
    requires
        from <= segs@.len(),
    ensures
        parts_view(final(out)@) == parts_view(old(out)@) + segment_parts(
            segs@.map_values(|s: Vec<char>| s@).skip(from as int),
        ),
{
    let ghost sv = segs@.map_values(|s: Vec<char>| s@).skip(from as int);
    let mut i = from;
    assert(sv.take(0) =~= Seq::<Seq<char>>::empty());
    assert(parts_view(old(out)@) + segment_parts(sv.take(0)) =~= parts_view(old(out)@));
    while i < segs.len()
        invariant
            from <= i <= segs@.len(),
            sv == segs@.map_values(|s: Vec<char>| s@).skip(from as int),
            parts_view(out@) == parts_view(old(out)@) + segment_parts(sv.take(i - from)),
        decreases segs@.len() - i,
    {
        let k = i - from;
        assert(sv.take(k + 1).drop_last() =~= sv.take(k as int));
        assert(sv.take(k + 1).last() == segs@[i as int]@);
        let s = &segs[i];
        let ghost before = parts_view(out@);
        if s.len() == 0 || eq_str(s, ".") {
            assert(before + Seq::<PathPart>::empty() =~= before);
        } else if eq_str(s, "..") {
            out.push(Part::Parent);
            assert(parts_view(out@) =~= before + seq![PathPart::Parent]);
        } else {
            let ghost v = s@;
            out.push(Part::Name(crate::text::slice_chars(s, 0, s.len())));
            assert(s@.subrange(0, s@.len() as int) =~= s@);
            assert(parts_view(out@) =~= before + seq![PathPart::Name(v)]);
        }
        assert(parts_view(out@) =~= parts_view(old(out)@) + segment_parts(sv.take(k + 1)));
        i = i + 1;
    }
    assert(sv.take(i - from) =~= sv);
}

/// The components of `path` (see [`path_parts`]).
fn path_parts_exec(path: &str) -> (r: Vec<Part>)
    ensures
        parts_view(r@) == path_parts(path@),
{
    let cs = chars_of(path);
    let segs = split_on_exec(&cs, '/');
    let ghost sv = segs@.map_values(|s: Vec<char>| s@);
    let mut out: Vec<Part> = Vec::new();
    assert(sv.skip(0) =~= sv);
    if cs.len() > 0 && cs[0] == '/' {
        out.push(Part::Root);
        assert(parts_view(out@) =~= seq![PathPart::Root]);
        push_segment_parts(&segs, 0, &mut out);
    } else if segs.len() > 0 && eq_str(&segs[0], ".") {
        assert(sv[0] == segs@[0]@);
        out.push(Part::Current);
        assert(parts_view(out@) =~= seq![PathPart::Current]);
        push_segment_parts(&segs, 1, &mut out);
        assert(sv.skip(1) =~= sv.drop_first());
    } else {
        proof {
            if segs@.len() > 0 {
                assert(sv[0] == segs@[0]@);
            }
        }
        assert(parts_view(out@) =~= Seq::<PathPart>::empty());
        push_segment_parts(&segs, 0, &mut out);
        assert(Seq::<PathPart>::empty() + segment_parts(sv) =~= segment_parts(sv));
    }
    out
}

/// The rank of a component.
fn rank_exec(p: &Part) -> (r: u8)
    ensures
        r == part_rank(part_view(*p)),
{
    match p {
        Part::Root => 0,
        Part::Current => 1,
        Part::Parent => 2,
        Part::Name(_) => 3,
    }
}

/// Whether two components are equal, and whether `a` comes before `b`.
fn compare_parts(a: &Part, b: &Part) -> (r: (bool, bool))
    ensures
        r.0 == (part_view(*a) == part_view(*b)),
        r.1 == part_lt(part_view(*a), part_view(*b)),
{
    let ra = rank_exec(a);
    let rb = rank_exec(b);
    if ra != rb {
        return (false, ra < rb);
    }
    match (a, b) {
        (Part::Name(x), Part::Name(y)) => (same_text(x, y), lex_less(x, y)),
        _ => (true, false),
    }
}

/// [`parts_lt`] and equality of two component lists.
fn parts_compare(a: &Vec<Part>, b: &Vec<Part>) -> (r: (bool, bool))
    ensures
        r.0 == (parts_view(a@) == parts_view(b@)),
        r.1 == parts_lt(parts_view(a@), parts_view(b@)),
{
    let ghost av = parts_view(a@);
    let ghost bv = parts_view(b@);
    let mut i: usize = 0;
    assert(av.skip(0) =~= av);
    assert(bv.skip(0) =~= bv);
    while i < a.len() && i < b.len()
        invariant
            i <= a@.len(),
            i <= b@.len(),
            av == parts_view(a@),
            bv == parts_view(b@),
            forall|j: int| 0 <= j < i ==> av[j] == bv[j],
            parts_lt(av, bv) == parts_lt(av.skip(i as int), bv.skip(i as int)),
        decreases a@.len() - i,
    {
        let (eq, lt) = compare_parts(&a[i], &b[i]);
        assert(av.skip(i as int)[0] == av[i as int]);
        assert(bv.skip(i as int)[0] == bv[i as int]);
        if !eq {
            assert(av != bv) by {
                if av == bv {
                    assert(av[i as int] == bv[i as int]);
                }
            }
            return (false, lt);
        }
        assert(av.skip(i as int).drop_first() =~= av.skip(i + 1));
        assert(bv.skip(i as int).drop_first() =~= bv.skip(i + 1));
        i = i + 1;
    }
    let same = a.len() == b.len();
    if same {
        assert(av =~= bv);
    } else {
        assert(av.len() != bv.len());
    }
    (same, i == a.len() && i < b.len())
}

/// Whether location `(pa, la)` comes before `(pb, lb)` (see [`loc_lt`]).
fn loc_less(pa: &Vec<Part>, la: u32, pb: &Vec<Part>, lb: u32) -> (r: bool)
    ensures
        r == (parts_lt(parts_view(pa@), parts_view(pb@)) || (parts_view(pa@) == parts_view(pb@) && la < lb)),
{
    let (eq, lt) = parts_compare(pa, pb);
    lt || (eq && la < lb)
}

/// The order of the entries by location: indices into `keys`, sorted by
/// path (component by component, as `Path` compares) and then line; entries
/// at equal locations keep their order (see [`sort_loc`]).
pub fn location_order(keys: &Vec<(String, u32)>) -> (r: Vec<usize>)
    ensures
        r@ == sort_loc(keys@, keys@.len()),
{
    let n = keys.len();
    let mut parts: Vec<Vec<Part>> = Vec::new();
    let mut i: usize = 0;
    while i < n
        invariant
            i <= n == keys@.len(),
            parts@.len() == i,
            forall|j: int| 0 <= j < i ==> parts_view(#[trigger] parts@[j]@) == path_parts(keys@[j].0@),
        decreases n - i,
    {
        parts.push(path_parts_exec(keys[i].0.as_str()));
        i = i + 1;
    }
    let mut order: Vec<usize> = Vec::new();
    let mut m: usize = 0;
    while m < n
        invariant
            m <= n == keys@.len(),
            parts@.len() == n,
            forall|j: int| 0 <= j < n ==> parts_view(#[trigger] parts@[j]@) == path_parts(keys@[j].0@),
            order@ == sort_loc(keys@, m as nat),
            forall|j: int| 0 <= j < order@.len() ==> #[trigger] order@[j] < m,
            order@.len() == m,
        decreases n - m,
    {
        let mut p = order.len();
        while p > 0 && loc_less(&parts[m], keys[m].1, &parts[order[p - 1]], keys[order[p - 1]].1)
            invariant
                p <= order@.len(),
                order@.len() == m,
                m < n == keys@.len(),
                parts@.len() == n,
                forall|j: int| 0 <= j < n ==> parts_view(#[trigger] parts@[j]@) == path_parts(keys@[j].0@),
                forall|j: int| 0 <= j < order@.len() ==> #[trigger] order@[j] < m,
                forall|j: int| p <= j < order@.len() ==> loc_lt(key_at(keys@, m), #[trigger] key_at(keys@, order@[j])),
            decreases p,
        {
            assert(key_at(keys@, order@[p - 1]) == (keys@[order@[p - 1] as int].0@, keys@[order@[p - 1] as int].1));
            p = p - 1;
        }
        proof {
            if p > 0 {
                assert(!loc_lt(key_at(keys@, m), key_at(keys@, order@[p - 1])));
            }
            lemma_insert_loc(order@, m, keys@, p as int);
        }
        let ghost prev = order@;
        order.insert(p, m);
        assert forall|j: int| 0 <= j < order@.len() implies #[trigger] order@[j] < m + 1 by {
            if j < p {
                assert(order@[j] == prev[j]);
            } else if j > p {
                assert(order@[j] == prev[j - 1]);
            }
        }
        m = m + 1;
    }
    order
}

/// Inserting by scanning from the end: `x` goes after the last entry that
/// does not come after it.
proof fn lemma_insert_loc(s: Seq<usize>, x: usize, keys: Seq<(String, u32)>, p: int)
    requires
        0 <= p <= s.len(),
        forall|j: int| p <= j < s.len() ==> loc_lt(key_at(keys, x), #[trigger] key_at(keys, s[j])),
        p > 0 ==> !loc_lt(key_at(keys, x), key_at(keys, s[p - 1])),
    ensures
        insert_loc(s, x, keys) == s.insert(p, x),
    decreases s.len(),
{
    if s.len() == 0 {
        assert(s.insert(p, x) =~= seq![x]);
    } else if p == s.len() {
        assert(s.insert(p, x) =~= s.push(x));
    } else {
        assert(loc_lt(key_at(keys, x), key_at(keys, s[s.len() - 1])));
        assert forall|j: int| p <= j < s.drop_last().len() implies loc_lt(key_at(keys, x), #[trigger] key_at(keys, s.drop_last()[j])) by {
            assert(s.drop_last()[j] == s[j]);
            assert(key_at(keys, s[j]) == key_at(keys, s.drop_last()[j]));
        }
        if p > 0 {
            assert(s.drop_last()[p - 1] == s[p - 1]);
        }
        lemma_insert_loc(s.drop_last(), x, keys, p);
        assert(s.drop_last().insert(p, x).push(s.last()) =~= s.insert(p, x));
    }
}

} // verus!
