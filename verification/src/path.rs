//! Paths as text, ordered and compared the way `std::path::Path` orders
//! and compares them: component by component.
//!
//! A path's components are its root (for a leading `/`), a leading `.`,
//! and the non-empty pieces between separators other than `.`. Each
//! component gets a code that is free of prefixes, and paths are ordered
//! by the lexicographic order of their concatenated codes.
use crate::text::{split, split_chars, views};
use vstd::prelude::*;

verus! {

broadcast use vstd::seq_lib::to_multiset_insert;

/// The pieces that count as components, dropping empty ones and every
/// `.` except a first one.
pub open spec fn kept_pieces(ps: Seq<Seq<char>>, first: bool) -> Seq<Seq<char>>
    decreases ps.len(),
{
    if ps.len() == 0 {
        Seq::<Seq<char>>::empty()
    } else {
        let rest = kept_pieces(ps.drop_first(), false);
        if ps[0].len() == 0 || (ps[0] == seq!['.'] && !first) {
            rest
        } else {
            seq![ps[0]] + rest
        }
    }
}

/// The components of a path; the root is written as an empty component.
pub open spec fn components(p: Seq<char>) -> Seq<Seq<char>> {
    let sp = split(p, '/');
    if p.len() > 0 && p[0] == '/' {
        seq![Seq::<char>::empty()] + kept_pieces(sp.drop_first(), false)
    } else {
        kept_pieces(sp, true)
    }
}

/// Code of a component: root, current directory, parent directory and
/// names rank in this order; names compare by their characters.
pub open spec fn component_code(c: Seq<char>) -> Seq<u64> {
    if c.len() == 0 {
        seq![1u64, 0u64]
    } else if c == seq!['.'] {
        seq![2u64, 0u64]
    } else if c == seq!['.', '.'] {
        seq![3u64, 0u64]
    } else {
        seq![4u64] + c.map_values(|ch: char| (ch as u32 + 5) as u64) + seq![0u64]
    }
}

pub open spec fn codes(cs: Seq<Seq<char>>) -> Seq<u64>
    decreases cs.len(),
{
    if cs.len() == 0 {
        Seq::<u64>::empty()
    } else {
        component_code(cs[0]) + codes(cs.drop_first())
    }
}

/// The sort key of a path; two paths are equal when their keys are.
pub open spec fn path_key(p: Seq<char>) -> Seq<u64> {
    codes(components(p))
}

/// Lexicographic order: the first difference decides, and a proper prefix
/// comes first.
pub open spec fn lex_less(a: Seq<u64>, b: Seq<u64>) -> bool
    decreases a.len(),
{
    if a.len() == 0 {
        b.len() > 0
    } else if b.len() == 0 {
        false
    } else if a[0] != b[0] {
        a[0] < b[0]
    } else {
        lex_less(a.drop_first(), b.drop_first())
    }
}

pub open spec fn path_less(a: Seq<char>, b: Seq<char>) -> bool {
    lex_less(path_key(a), path_key(b))
}

pub open spec fn path_eq(a: Seq<char>, b: Seq<char>) -> bool {
    path_key(a) == path_key(b)
}

pub proof fn lemma_lex_irreflexive(a: Seq<u64>)
    ensures
        !lex_less(a, a),
    decreases a.len(),
{
    if a.len() > 0 {
        lemma_lex_irreflexive(a.drop_first());
    }
}

pub proof fn lemma_lex_total(a: Seq<u64>, b: Seq<u64>)
    ensures
        a != b ==> lex_less(a, b) || lex_less(b, a),
        !(lex_less(a, b) && lex_less(b, a)),
    decreases a.len(),
{
    if a.len() > 0 && b.len() > 0 && a[0] == b[0] {
        lemma_lex_total(a.drop_first(), b.drop_first());
        if a != b {
            assert(a.drop_first() != b.drop_first()) by {
                if a.drop_first() == b.drop_first() {
                    assert(a =~= seq![a[0]] + a.drop_first());
                    assert(b =~= seq![b[0]] + b.drop_first());
                }
            }
        }
    } else if a.len() == 0 && b.len() == 0 {
        assert(a =~= b);
    }
}

pub proof fn lemma_lex_transitive(a: Seq<u64>, b: Seq<u64>, c: Seq<u64>)
    requires
        lex_less(a, b),
        lex_less(b, c),
    ensures
        lex_less(a, c),
    decreases a.len(),
{
    if a.len() > 0 && b.len() > 0 && c.len() > 0 && a[0] == b[0] && b[0] == c[0] {
        lemma_lex_transitive(a.drop_first(), b.drop_first(), c.drop_first());
    }
}

fn kept_pieces_of(ps: &Vec<Vec<char>>, first: bool) -> (r: Vec<Vec<char>>)
    ensures
        views(r@) == kept_pieces(views(ps@), first),
{
    let mut out: Vec<Vec<char>> = Vec::new();
    let mut i: usize = 0;
    assert(views(ps@).skip(0) =~= views(ps@));
    while i < ps.len()
        invariant
            i <= ps.len(),
            views(out@) + kept_pieces(views(ps@).skip(i as int), first && i == 0) == kept_pieces(
                views(ps@),
                first,
            ),
        decreases ps.len() - i,
    {
        let piece = &ps[i];
        let ghost rest = views(ps@).skip(i + 1);
        assert(views(ps@).skip(i as int).drop_first() =~= rest);
        assert(views(ps@).skip(i as int)[0] == piece@);
        let is_dot = piece.len() == 1 && piece[0] == '.';
        assert(is_dot == (piece@ == seq!['.'])) by {
            if piece@ == seq!['.'] {
                assert(piece@[0] == '.');
            }
            if is_dot {
                assert(piece@ =~= seq!['.']);
            }
        }
        if piece.len() == 0 || (is_dot && !(first && i == 0)) {
        } else {
            let ghost before = views(out@);
            out.push(crate::text::copy_chars(piece));
            assert(views(out@) =~= before + seq![piece@]);
        }
        i = i + 1;
    }
    assert(views(ps@).skip(ps.len() as int) =~= Seq::<Seq<char>>::empty());
    assert(views(out@) =~= kept_pieces(views(ps@), first));
    out
}

/// The components of a path.
pub fn components_of(p: &Vec<char>) -> (r: Vec<Vec<char>>)
    ensures
        views(r@) == components(p@),
{
    let sp = split_chars(p, '/');
    if p.len() > 0 && p[0] == '/' {
        let mut rest: Vec<Vec<char>> = Vec::new();
        let mut i: usize = 1;
        proof {
            crate::text::lemma_split_len(p@, '/');
        }
        while i < sp.len()
            invariant
                1 <= i <= sp.len(),
                views(rest@) == views(sp@).subrange(1, i as int),
            decreases sp.len() - i,
        {
            let ghost before = views(rest@);
            rest.push(crate::text::copy_chars(&sp[i]));
            assert(views(rest@) =~= before.push(sp@[i as int]@));
            assert(views(sp@)[i as int] == sp@[i as int]@);
            i = i + 1;
            assert(views(rest@) =~= views(sp@).subrange(1, i as int));
        }
        assert(views(rest@) =~= views(sp@).drop_first());
        let kept = kept_pieces_of(&rest, false);
        let mut out: Vec<Vec<char>> = Vec::new();
        out.push(Vec::new());
        let mut j: usize = 0;
        while j < kept.len()
            invariant
                j <= kept.len(),
                views(out@) == seq![Seq::<char>::empty()] + views(kept@).take(j as int),
            decreases kept.len() - j,
        {
            let ghost before = views(out@);
            out.push(crate::text::copy_chars(&kept[j]));
            assert(views(out@) =~= before.push(kept@[j as int]@));
            assert(views(kept@)[j as int] == kept@[j as int]@);
            j = j + 1;
            assert(views(out@) =~= seq![Seq::<char>::empty()] + views(kept@).take(j as int));
        }
        assert(views(kept@).take(kept.len() as int) =~= views(kept@));
        out
    } else {
        kept_pieces_of(&sp, true)
    }
}

fn component_code_of(c: &Vec<char>) -> (r: Vec<u64>)
    ensures
        r@ == component_code(c@),
{
    let mut out: Vec<u64> = Vec::new();
    if c.len() == 0 {
        out.push(1);
        out.push(0);
        assert(out@ =~= seq![1u64, 0u64]);
        return out;
    }
    if c.len() == 1 && c[0] == '.' {
        out.push(2);
        out.push(0);
        assert(c@ =~= seq!['.']);
        assert(out@ =~= seq![2u64, 0u64]);
        return out;
    }
    if c.len() == 2 && c[0] == '.' && c[1] == '.' {
        out.push(3);
        out.push(0);
        assert(c@ =~= seq!['.', '.']);
        assert(c@ != seq!['.']);
        assert(out@ =~= seq![3u64, 0u64]);
        return out;
    }
    assert(c@ != seq!['.']) by {
        if c@ == seq!['.'] {
            assert(c@[0] == '.');
        }
    }
    assert(c@ != seq!['.', '.']) by {
        if c@ == seq!['.', '.'] {
            assert(c@[0] == '.' && c@[1] == '.');
        }
    }
    out.push(4);
    let mut i: usize = 0;
    while i < c.len()
        invariant
            i <= c.len(),
            out@ == seq![4u64] + c@.take(i as int).map_values(|ch: char| (ch as u32 + 5) as u64),
        decreases c.len() - i,
    {
        let v: u64 = (c[i] as u32) as u64 + 5;
        out.push(v);
        i = i + 1;
        assert(out@ =~= seq![4u64] + c@.take(i as int).map_values(
            |ch: char| (ch as u32 + 5) as u64,
        ));
    }
    out.push(0);
    assert(c@.take(c.len() as int) =~= c@);
    out
}

/// The sort key of a path.
pub fn path_key_of(p: &Vec<char>) -> (r: Vec<u64>)
    ensures
        r@ == path_key(p@),
{
    let cs = components_of(p);
    let mut out: Vec<u64> = Vec::new();
    let mut i: usize = cs.len();
    assert(views(cs@).skip(cs.len() as int) =~= Seq::<Seq<char>>::empty());
    while i > 0
        invariant
            i <= cs.len(),
            out@ == codes(views(cs@).skip(i as int)),
        decreases i,
    {
        let code = component_code_of(&cs[i - 1]);
        let ghost tail = out@;
        let mut next = code;
        let mut j: usize = 0;
        while j < out.len()
            invariant
                j <= out.len(),
                out@ == tail,
                next@ == component_code(cs@[i - 1]@) + tail.take(j as int),
            decreases out.len() - j,
        {
            next.push(out[j]);
            j = j + 1;
            assert(next@ =~= component_code(cs@[i - 1]@) + tail.take(j as int));
        }
        assert(tail.take(tail.len() as int) =~= tail);
        assert(views(cs@).skip(i - 1).drop_first() =~= views(cs@).skip(i as int));
        assert(views(cs@).skip(i - 1)[0] == cs@[i - 1]@);
        out = next;
        i = i - 1;
    }
    assert(views(cs@).skip(0) =~= views(cs@));
    out
}

/// Whether key `a` comes before key `b`.
pub fn key_less(a: &Vec<u64>, b: &Vec<u64>) -> (r: bool)
    ensures
        r == lex_less(a@, b@),
{
    let mut i: usize = 0;
    assert(a@.skip(0) =~= a@);
    assert(b@.skip(0) =~= b@);
    while i < a.len() && i < b.len()
        invariant
            i <= a.len(),
            i <= b.len(),
            lex_less(a@, b@) == lex_less(a@.skip(i as int), b@.skip(i as int)),
        decreases a.len() - i,
    {
        if a[i] != b[i] {
            return a[i] < b[i];
        }
        assert(a@.skip(i as int).drop_first() =~= a@.skip(i + 1));
        assert(b@.skip(i as int).drop_first() =~= b@.skip(i + 1));
        i = i + 1;
    }
    i == a.len() && i < b.len()
}

/// Whether two keys are equal.
pub fn key_eq(a: &Vec<u64>, b: &Vec<u64>) -> (r: bool)
    ensures
        r == (a@ == b@),
{
    if a.len() != b.len() {
        return false;
    }
    let mut i: usize = 0;
    while i < a.len()
        invariant
            a.len() == b.len(),
            i <= a.len(),
            forall|j: int| 0 <= j < i ==> a@[j] == b@[j],
        decreases a.len() - i,
    {
        if a[i] != b[i] {
            return false;
        }
        i = i + 1;
    }
    assert(a@ =~= b@);
    true
}


/// Two sequences with the same elements keep the same elements under a map.
pub proof fn lemma_map_same_multiset<A, B>(s: Seq<A>, t: Seq<A>, f: spec_fn(A) -> B)
    requires
        s.to_multiset() == t.to_multiset(),
    ensures
        s.map_values(f).to_multiset() == t.map_values(f).to_multiset(),
    decreases s.len(),
{
    broadcast use vstd::multiset::group_multiset_axioms;
    broadcast use vstd::seq_lib::group_to_multiset_ensures;

    if s.len() == 0 {
        assert(t.to_multiset().len() == 0);
        assert(t.len() == 0);
        assert(s.map_values(f) =~= Seq::<B>::empty());
        assert(t.map_values(f) =~= Seq::<B>::empty());
    } else {
        let x = s[0];
        assert(s.contains(x));
        assert(s.to_multiset().count(x) > 0);
        assert(t.contains(x));
        let i = choose|i: int| 0 <= i < t.len() && t[i] == x;
        let s1 = s.drop_first();
        let t1 = t.remove(i);
        assert(s.remove(0) =~= s1);
        assert(s1.to_multiset() == s.to_multiset().remove(x));
        assert(t1.to_multiset() == t.to_multiset().remove(x));
        lemma_map_same_multiset(s1, t1, f);
        let sm = s.map_values(f);
        let tm = t.map_values(f);
        assert(sm.remove(0) =~= s1.map_values(f));
        assert(tm.remove(i) =~= t1.map_values(f));
        assert(sm.remove(0).to_multiset() == sm.to_multiset().remove(f(x)));
        assert(tm.remove(i).to_multiset() == tm.to_multiset().remove(f(x)));
        assert(sm.contains(f(x))) by {
            assert(sm[0] == f(x));
        }
        assert(tm.contains(f(x))) by {
            assert(tm[i] == f(x));
        }
        assert(sm.to_multiset() =~= sm.to_multiset().remove(f(x)).insert(f(x)));
        assert(tm.to_multiset() =~= tm.to_multiset().remove(f(x)).insert(f(x)));
    }
}

/// The codes of a text, one per character.
pub open spec fn char_codes(s: Seq<char>) -> Seq<u64> {
    s.map_values(|c: char| c as u32 as u64)
}

pub fn char_codes_of(s: &Vec<char>) -> (r: Vec<u64>)
    ensures
        r@ == char_codes(s@),
{
    let mut out: Vec<u64> = Vec::new();
    let mut i: usize = 0;
    while i < s.len()
        invariant
            i <= s@.len(),
            out@ == char_codes(s@.take(i as int)),
        decreases s.len() - i,
    {
        out.push(s[i] as u32 as u64);
        assert(out@ =~= char_codes(s@.take(i + 1)));
        i = i + 1;
    }
    assert(s@.take(s@.len() as int) =~= s@);
    out
}

pub open spec fn keyed_views<V: View>(v: Seq<(Vec<u64>, V)>) -> Seq<(Seq<u64>, V::V)> {
    v.map_values(|p: (Vec<u64>, V)| (p.0@, p.1@))
}

/// Sorts items by their keys, in lexicographic order of the keys; items
/// with equal keys keep their order.
pub fn sort_keyed<V: View>(items: Vec<(Vec<u64>, V)>) -> (r: Vec<(Vec<u64>, V)>)
    ensures
        keyed_views(r@).to_multiset() == keyed_views(items@).to_multiset(),
        forall|a: int, b: int| 0 <= a < b < r@.len() ==> !lex_less(r@[b].0@, r@[a].0@),
{
    let ghost input = keyed_views(items@);
    let n_items: usize = items.len();
    let ghost n = n_items as nat;
    let mut out: Vec<(Vec<u64>, V)> = Vec::new();
    let mut rest = items;
    let mut taken: usize = 0;
    assert(keyed_views(rest@) =~= input.skip(0));
    assert(input.take(0) =~= Seq::<(Seq<u64>, V::V)>::empty());
    assert(keyed_views(out@) =~= Seq::<(Seq<u64>, V::V)>::empty());
    while rest.len() > 0
        invariant
            taken + rest@.len() == n,
            n <= usize::MAX,
            input.len() == n,
            keyed_views(rest@) == input.skip(taken as int),
            forall|a: int, b: int| 0 <= a < b < out@.len() ==> !lex_less(out@[b].0@, out@[a].0@),
            keyed_views(out@).to_multiset() == input.take(taken as int).to_multiset(),
        decreases rest.len(),
    {
        let ghost rest_before = keyed_views(rest@);
        let ghost rest_vec = rest@;
        let x = rest.remove(0);
        assert((x.0@, x.1@) == input[taken as int]) by {
            assert(rest_before[0] == input.skip(taken as int)[0]);
        }
        assert(rest@ == rest_vec.remove(0));
        assert(keyed_views(rest@) =~= rest_before.drop_first());
        assert(rest_before.drop_first() =~= input.skip(taken + 1));
        let mut j: usize = out.len();
        while j > 0 && key_less(&x.0, &out[j - 1].0)
            invariant
                j <= out@.len(),
                forall|a: int| j <= a < out@.len() ==> lex_less(x.0@, out@[a].0@),
            decreases j,
        {
            j = j - 1;
        }
        let ghost old_out = out@;
        let ghost old_views = keyed_views(out@);
        let ghost kx = x.0@;
        let ghost vx = (x.0@, x.1@);
        out.insert(j, x);
        proof {
            assert(keyed_views(out@) =~= old_views.insert(j as int, vx));
            assert(input.take(taken + 1) =~= input.take(taken as int).push(input[taken as int]));
            vstd::seq_lib::to_multiset_build(input.take(taken as int), input[taken as int]);
            assert forall|a: int, b: int| 0 <= a < b < out@.len() implies !lex_less(
                out@[b].0@,
                out@[a].0@,
            ) by {
                if a < j && b == j {
                    assert(out@[a] == old_out[a]);
                    if lex_less(kx, old_out[a].0@) {
                        let kj = old_out[j - 1].0@;
                        lemma_lex_total(kx, kj);
                        if a < j - 1 {
                            assert(!lex_less(kj, old_out[a].0@));
                            if kj != kx {
                                lemma_lex_transitive(kj, kx, old_out[a].0@);
                            }
                        }
                    }
                } else if a == j && b > j {
                    assert(out@[b] == old_out[b - 1]);
                    lemma_lex_total(kx, old_out[b - 1].0@);
                } else if a < j && b > j {
                    assert(out@[a] == old_out[a] && out@[b] == old_out[b - 1]);
                } else if a < j && b < j {
                    assert(out@[a] == old_out[a] && out@[b] == old_out[b]);
                } else {
                    assert(out@[a] == old_out[a - 1] && out@[b] == old_out[b - 1]);
                }
            }
        }
        taken = taken + 1;
    }
    assert(input.take(n as int) =~= input);
    out
}

/// Sorts paths the way `sort` orders `PathBuf`s; paths that compare equal
/// keep their order.
pub fn sort_paths(paths: Vec<String>) -> (r: Vec<String>)
    ensures
        r@.map_values(|s: String| s@).to_multiset() == paths@.map_values(|s: String| s@).to_multiset(),
        forall|a: int, b: int| 0 <= a < b < r@.len() ==> !path_less(r@[b]@, r@[a]@),
{
    let ghost input = paths@.map_values(|s: String| s@);
    let n_items: usize = paths.len();
    let ghost n = n_items as nat;
    let mut out: Vec<String> = Vec::new();
    let mut keys: Vec<Vec<u64>> = Vec::new();
    let mut rest = paths;
    let mut taken: usize = 0;
    assert(rest@.map_values(|s: String| s@) =~= input.skip(0));
    assert(input.take(0) =~= Seq::<Seq<char>>::empty());
    assert(out@.map_values(|s: String| s@) =~= Seq::<Seq<char>>::empty());
    while rest.len() > 0
        invariant
            taken + rest@.len() == n,
            n <= usize::MAX,
            input.len() == n,
            rest@.map_values(|s: String| s@) == input.skip(taken as int),
            out@.len() == keys@.len(),
            forall|a: int| 0 <= a < keys@.len() ==> (#[trigger] keys@[a])@ == path_key(out@[a]@),
            forall|a: int, b: int| 0 <= a < b < out@.len() ==> !lex_less(keys@[b]@, keys@[a]@),
            out@.map_values(|s: String| s@).to_multiset() == input.take(taken as int).to_multiset(),
        decreases rest.len(),
    {
        let ghost rest_before = rest@.map_values(|s: String| s@);
        let ghost rest_vec = rest@;
        let x = rest.remove(0);
        assert(x@ == input[taken as int]) by {
            assert(rest_before[0] == input.skip(taken as int)[0]);
        }
        assert(rest@ == rest_vec.remove(0));
        assert(rest@.map_values(|s: String| s@) =~= rest_before.drop_first());
        assert(rest_before.drop_first() =~= input.skip(taken + 1));
        let kx = path_key_of(&crate::text::chars_of(x.as_str()));
        let mut j: usize = keys.len();
        while j > 0 && key_less(&kx, &keys[j - 1])
            invariant
                j <= keys@.len(),
                forall|a: int| j <= a < keys@.len() ==> lex_less(kx@, keys@[a]@),
            decreases j,
        {
            j = j - 1;
        }
        let ghost old_keys = keys@;
        let ghost old_views = out@.map_values(|s: String| s@);
        keys.insert(j, kx);
        out.insert(j, x);
        proof {
            assert(out@.map_values(|s: String| s@) =~= old_views.insert(j as int, x@));
            assert(input.take(taken + 1) =~= input.take(taken as int).push(input[taken as int]));
            vstd::seq_lib::to_multiset_build(input.take(taken as int), input[taken as int]);
            assert forall|a: int, b: int| 0 <= a < b < out@.len() implies !lex_less(
                keys@[b]@,
                keys@[a]@,
            ) by {
                if a < j && b == j {
                    assert(keys@[a] == old_keys[a]);
                    if lex_less(kx@, old_keys[a]@) {
                        let kj = old_keys[j - 1]@;
                        lemma_lex_total(kx@, kj);
                        if a < j - 1 {
                            assert(!lex_less(kj, old_keys[a]@));
                            if kj != kx@ {
                                lemma_lex_transitive(kj, kx@, old_keys[a]@);
                            }
                        }
                    }
                } else if a == j && b > j {
                    assert(keys@[b] == old_keys[b - 1]);
                    lemma_lex_total(kx@, old_keys[b - 1]@);
                } else if a < j && b > j {
                    assert(keys@[a] == old_keys[a] && keys@[b] == old_keys[b - 1]);
                } else if a < j && b < j {
                    assert(keys@[a] == old_keys[a] && keys@[b] == old_keys[b]);
                } else {
                    assert(keys@[a] == old_keys[a - 1] && keys@[b] == old_keys[b - 1]);
                }
            }
            assert forall|a: int| 0 <= a < keys@.len() implies (#[trigger] keys@[a])@ == path_key(
                out@[a]@,
            ) by {
                if a < j {
                    assert(keys@[a] == old_keys[a]);
                } else if a > j {
                    assert(keys@[a] == old_keys[a - 1]);
                }
            }
        }
        taken = taken + 1;
    }
    assert(input.take(n as int) =~= input);
    proof {
        assert forall|a: int, b: int| 0 <= a < b < out@.len() implies !path_less(
            out@[b]@,
            out@[a]@,
        ) by {
            assert(keys@[a]@ == path_key(out@[a]@));
            assert(keys@[b]@ == path_key(out@[b]@));
        }
    }
    out
}


/// `Path::join` with a relative name: the name follows a separator, which
/// is added unless the path is empty or already ends with one.
pub open spec fn join(a: Seq<char>, b: Seq<char>, windows: bool) -> Seq<char> {
    if a.len() == 0 {
        b
    } else if a.last() == '/' || (windows && a.last() == '\\') {
        a + b
    } else {
        a + seq![if windows {
            '\\'
        } else {
            '/'
        }] + b
    }
}

pub fn join_path(a: &str, b: &str, windows: bool) -> (r: String)
    ensures
        r@ == join(a@, b@, windows),
{
    let x = crate::text::chars_of(a);
    let y = crate::text::chars_of(b);
    if x.len() == 0 {
        return crate::text::string_of(&y);
    }
    let last = x[x.len() - 1];
    if last == '/' || (windows && last == '\\') {
        return crate::text::string_of(&crate::text::concat(&x, &y));
    }
    let mut out = x;
    out.push(if windows {
        '\\'
    } else {
        '/'
    });
    crate::text::string_of(&crate::text::concat(&out, &y))
}

} // verus!
