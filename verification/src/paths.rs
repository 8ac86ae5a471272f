//! Archive paths: stripping the input root, normalizing away unsafe
//! components, and choosing a compression algorithm from the file extension.
//! Paths are UTF-8 byte strings with `/` separators; splitting on the
//! separator byte is exact because `/` never occurs inside a multi-byte
//! UTF-8 character.
use vstd::prelude::*;

use crate::models::CompressionAlgorithm;

verus! {

/// The path separator byte, `/`.
pub const SLASH: u8 = 47;

/// The dot byte, `.`.
pub const DOT: u8 = 46;

/// The components of `p`, split on `/`: `a/b` splits to `a`, `b`; empty
/// components are kept, so `a//b` splits to `a`, ``, `b`.
pub open spec fn split_comps(p: Seq<u8>) -> Seq<Seq<u8>>
    decreases p.len(),
{
    if p.len() == 0 {
        seq![Seq::<u8>::empty()]
    } else if p[0] == SLASH {
        seq![Seq::<u8>::empty()] + split_comps(p.skip(1))
    } else {
        let r = split_comps(p.skip(1));
        r.update(0, seq![p[0]] + r[0])
    }
}

/// A component that survives sanitization: nonempty, not the current
/// directory `.`, not the parent directory `..`.
pub open spec fn keep_component(c: Seq<u8>) -> bool {
    c.len() > 0 && c != seq![DOT] && c != seq![DOT, DOT]
}

/// The components of `cs` that survive sanitization, in order.
pub open spec fn kept_comps(cs: Seq<Seq<u8>>) -> Seq<Seq<u8>>
    decreases cs.len(),
{
    if cs.len() == 0 {
        cs
    } else if keep_component(cs[0]) {
        seq![cs[0]] + kept_comps(cs.skip(1))
    } else {
        kept_comps(cs.skip(1))
    }
}

/// The components joined back with `/`.
pub open spec fn join_comps(cs: Seq<Seq<u8>>) -> Seq<u8>
    decreases cs.len(),
{
    if cs.len() == 0 {
        Seq::empty()
    } else if cs.len() == 1 {
        cs[0]
    } else {
        cs[0] + seq![SLASH] + join_comps(cs.skip(1))
    }
}

/// The sanitized form of `p`: its components with every empty, `.` and `..`
/// component dropped, joined with `/`. The result is always a normalized
/// relative path.
pub open spec fn spec_sanitize(p: Seq<u8>) -> Seq<u8> {
    join_comps(kept_comps(split_comps(p)))
}

/// Splitting always yields at least one component.
pub proof fn lemma_split_nonempty(p: Seq<u8>)
    ensures
        split_comps(p).len() >= 1,
    decreases p.len(),
{
    if p.len() == 0 {
    } else {
        lemma_split_nonempty(p.skip(1));
    }
}

/// No split component contains the separator.
pub proof fn lemma_split_slash_free(p: Seq<u8>)
    ensures
        forall|j: int|
            0 <= j < split_comps(p).len() ==> !(#[trigger] split_comps(p)[j]).contains(SLASH),
    decreases p.len(),
{
    if p.len() == 0 {
        assert forall|j: int| 0 <= j < split_comps(p).len() implies !(
        #[trigger] split_comps(p)[j]).contains(SLASH) by {
            assert(split_comps(p)[j] =~= Seq::<u8>::empty());
        }
    } else if p[0] == SLASH {
        lemma_split_slash_free(p.skip(1));
        assert forall|j: int| 0 <= j < split_comps(p).len() implies !(
        #[trigger] split_comps(p)[j]).contains(SLASH) by {
            if j == 0 {
                assert(split_comps(p)[0] =~= Seq::<u8>::empty());
            } else {
                assert(split_comps(p)[j] == split_comps(p.skip(1))[j - 1]);
            }
        }
    } else {
        lemma_split_slash_free(p.skip(1));
        lemma_split_nonempty(p.skip(1));
        let r = split_comps(p.skip(1));
        assert forall|j: int| 0 <= j < split_comps(p).len() implies !(
        #[trigger] split_comps(p)[j]).contains(SLASH) by {
            if j == 0 {
                assert(split_comps(p)[0] == seq![p[0]] + r[0]);
                assert(!r[0].contains(SLASH));
                if split_comps(p)[0].contains(SLASH) {
                    let k = choose|k: int|
                        0 <= k < (seq![p[0]] + r[0]).len() && (seq![p[0]] + r[0])[k] == SLASH;
                    if k == 0 {
                        assert(p[0] == SLASH);
                    } else {
                        assert(r[0][k - 1] == SLASH);
                        assert(r[0].contains(SLASH));
                    }
                }
            } else {
                assert(split_comps(p)[j] == r[j]);
            }
        }
    }
}

/// Every kept component is nonempty, safe, and free of the separator.
pub proof fn lemma_kept_props(cs: Seq<Seq<u8>>)
    requires
        forall|j: int| 0 <= j < cs.len() ==> !(#[trigger] cs[j]).contains(SLASH),
    ensures
        forall|j: int|
            0 <= j < kept_comps(cs).len() ==> keep_component(#[trigger] kept_comps(cs)[j]) && !kept_comps(
                cs,
            )[j].contains(SLASH),
    decreases cs.len(),
{
    if cs.len() == 0 {
    } else {
        assert(forall|j: int|
            0 <= j < cs.skip(1).len() ==> !(#[trigger] cs.skip(1)[j]).contains(SLASH));
        lemma_kept_props(cs.skip(1));
        if !keep_component(cs[0]) {
            assert(kept_comps(cs) == kept_comps(cs.skip(1)));
            assert forall|j: int| 0 <= j < kept_comps(cs).len() implies keep_component(
                #[trigger] kept_comps(cs)[j],
            ) && !kept_comps(cs)[j].contains(SLASH) by {
                assert(kept_comps(cs)[j] == kept_comps(cs.skip(1))[j]);
            }
        } else {
            assert forall|j: int| 0 <= j < kept_comps(cs).len() implies keep_component(
                #[trigger] kept_comps(cs)[j],
            ) && !kept_comps(cs)[j].contains(SLASH) by {
                if j == 0 {
                    assert(kept_comps(cs)[0] == cs[0]);
                } else {
                    assert(kept_comps(cs)[j] == kept_comps(cs.skip(1))[j - 1]);
                }
            }
        }
    }
}

/// Splitting a nonempty separator-free sequence yields that one component.
pub proof fn lemma_split_single(c: Seq<u8>)
    requires
        c.len() > 0,
        !c.contains(SLASH),
    ensures
        split_comps(c) =~~= seq![c],
    decreases c.len(),
{
    assert(c[0] != SLASH);
    if c.len() == 1 {
        assert(c.skip(1) =~= Seq::<u8>::empty());
        assert(split_comps(c.skip(1)) =~~= seq![Seq::<u8>::empty()]);
        assert(seq![c[0]] + Seq::<u8>::empty() =~= c);
    } else {
        assert(!c.skip(1).contains(SLASH)) by {
            if c.skip(1).contains(SLASH) {
                let k = choose|k: int| 0 <= k < c.skip(1).len() && c.skip(1)[k] == SLASH;
                assert(c[k + 1] == SLASH);
                assert(c.contains(SLASH));
            }
        }
        lemma_split_single(c.skip(1));
        assert(seq![c[0]] + c.skip(1) =~= c);
    }
}

/// Splitting `a`, a separator, then the rest splits `a` off first.
pub proof fn lemma_split_sep(a: Seq<u8>, rest: Seq<u8>)
    requires
        !a.contains(SLASH),
    ensures
        split_comps(a + seq![SLASH] + rest) =~~= seq![a] + split_comps(rest),
    decreases a.len(),
{
    let w = a + seq![SLASH] + rest;
    if a.len() == 0 {
        assert(w[0] == SLASH);
        assert(w.skip(1) =~= rest);
        assert(seq![Seq::<u8>::empty()] + split_comps(rest) =~~= seq![a] + split_comps(rest));
    } else {
        assert(w[0] == a[0]);
        assert(a[0] != SLASH);
        assert(!a.skip(1).contains(SLASH)) by {
            if a.skip(1).contains(SLASH) {
                let k = choose|k: int| 0 <= k < a.skip(1).len() && a.skip(1)[k] == SLASH;
                assert(a[k + 1] == SLASH);
            }
        }
        lemma_split_sep(a.skip(1), rest);
        assert(w.skip(1) =~= a.skip(1) + seq![SLASH] + rest);
        let r = split_comps(w.skip(1));
        assert(r =~~= seq![a.skip(1)] + split_comps(rest));
        lemma_split_nonempty(rest);
        assert(r[0] == a.skip(1));
        assert(seq![w[0]] + r[0] =~= a);
        assert(split_comps(w) =~~= r.update(0, a));
        assert(r.update(0, a) =~~= seq![a] + split_comps(rest));
    }
}

/// Joining components that are nonempty and separator-free, then splitting,
/// gives the components back.
pub proof fn lemma_join_split_round_trip(cs: Seq<Seq<u8>>)
    requires
        cs.len() >= 1,
        forall|j: int| 0 <= j < cs.len() ==> (#[trigger] cs[j]).len() > 0 && !cs[j].contains(SLASH),
    ensures
        split_comps(join_comps(cs)) =~~= cs,
    decreases cs.len(),
{
    if cs.len() == 1 {
        lemma_split_single(cs[0]);
        assert(seq![cs[0]] =~~= cs);
    } else {
        assert(forall|j: int|
            0 <= j < cs.skip(1).len() ==> (#[trigger] cs.skip(1)[j]).len() > 0 && !cs.skip(
                1,
            )[j].contains(SLASH));
        lemma_join_split_round_trip(cs.skip(1));
        lemma_split_sep(cs[0], join_comps(cs.skip(1)));
        assert(join_comps(cs) == cs[0] + seq![SLASH] + join_comps(cs.skip(1)));
        assert(seq![cs[0]] + cs.skip(1) =~~= cs);
    }
}

/// Path safety: after sanitization no component of the stored path is the
/// parent directory, so a path joined under an extraction root stays under
/// that root; and the path never starts with the separator, so it is always
/// relative.
pub proof fn lemma_sanitize_path_safe(p: Seq<u8>)
    ensures
        forall|j: int|
            0 <= j < split_comps(spec_sanitize(p)).len() ==> #[trigger] split_comps(
                spec_sanitize(p),
            )[j] != seq![DOT, DOT] && split_comps(spec_sanitize(p))[j] != seq![DOT],
        spec_sanitize(p).len() > 0 ==> spec_sanitize(p)[0] != SLASH,
{
    lemma_split_slash_free(p);
    lemma_kept_props(split_comps(p));
    let cs = kept_comps(split_comps(p));
    let out = spec_sanitize(p);
    if cs.len() == 0 {
        assert(out =~= Seq::<u8>::empty());
        assert forall|j: int| 0 <= j < split_comps(out).len() implies #[trigger] split_comps(
            out,
        )[j] != seq![DOT, DOT] && split_comps(out)[j] != seq![DOT] by {
            assert(split_comps(out) =~~= seq![Seq::<u8>::empty()]);
            assert(split_comps(out)[j] =~= Seq::<u8>::empty());
        }
    } else {
        lemma_join_split_round_trip(cs);
        assert forall|j: int| 0 <= j < split_comps(out).len() implies #[trigger] split_comps(
            out,
        )[j] != seq![DOT, DOT] && split_comps(out)[j] != seq![DOT] by {
            assert(split_comps(out)[j] == cs[j]);
            assert(keep_component(cs[j]));
        }
        if out.len() > 0 {
            assert(out == join_comps(cs));
            assert(cs[0].len() > 0);
            assert(out[0] == cs[0][0]);
            if out[0] == SLASH {
                assert(cs[0].contains(SLASH));
            }
        }
    }
}

/// Split `p` from byte `from` on into its `/`-separated components.
fn split_path(p: &Vec<u8>, from: usize) -> (r: Vec<Vec<u8>>)
    requires
        from <= p.len(),
    ensures
        r.deep_view() == split_comps(p@.skip(from as int)),
        r@.len() >= 1,
    decreases p.len() - from,
{
    if from == p.len() {
        let mut v: Vec<Vec<u8>> = Vec::new();
        v.push(Vec::new());
        proof {
            assert(p@.skip(from as int) =~= Seq::<u8>::empty());
            assert(v.deep_view() =~~= seq![Seq::<u8>::empty()]);
        }
        v
    } else if p[from] == SLASH {
        let mut r = split_path(p, from + 1);
        r.insert(0, Vec::new());
        proof {
            assert(p@.skip(from as int)[0] == SLASH);
            assert(p@.skip(from as int).skip(1) =~= p@.skip(from as int + 1));
            assert(r.deep_view() =~~= seq![Seq::<u8>::empty()] + split_comps(
                p@.skip(from as int + 1),
            ));
        }
        r
    } else {
        let b = p[from];
        let mut r = split_path(p, from + 1);
        let mut first = r.remove(0);
        first.insert(0, b);
        r.insert(0, first);
        proof {
            assert(p@.skip(from as int)[0] == b);
            assert(p@.skip(from as int).skip(1) =~= p@.skip(from as int + 1));
            let s = split_comps(p@.skip(from as int + 1));
            assert(r.deep_view() =~~= s.update(0, seq![b] + s[0]));
        }
        r
    }
}

/// Whether `c` survives sanitization.
fn keep_component_exec(c: &Vec<u8>) -> (r: bool)
    ensures
        r == keep_component(c@),
{
    if c.len() == 0 {
        return false;
    }
    if c.len() == 1 && c[0] == DOT {
        proof {
            assert(c@ =~= seq![DOT]);
        }
        return false;
    }
    if c.len() == 2 && c[0] == DOT && c[1] == DOT {
        proof {
            assert(c@ =~= seq![DOT, DOT]);
        }
        return false;
    }
    proof {
        assert(c@ != seq![DOT]);
        assert(c@ != seq![DOT, DOT]);
    }
    true
}

/// The components of `cs` from `from` on that survive sanitization.
fn kept_components(cs: &Vec<Vec<u8>>, from: usize) -> (r: Vec<Vec<u8>>)
    requires
        from <= cs.len(),
    ensures
        r.deep_view() == kept_comps(cs.deep_view().skip(from as int)),
    decreases cs.len() - from,
{
    if from == cs.len() {
        let v: Vec<Vec<u8>> = Vec::new();
        proof {
            assert(cs.deep_view().skip(from as int) =~~= Seq::<Seq<u8>>::empty());
            assert(v.deep_view() =~~= kept_comps(cs.deep_view().skip(from as int)));
        }
        v
    } else {
        let mut rest = kept_components(cs, from + 1);
        proof {
            assert(cs.deep_view().skip(from as int).skip(1) =~~= cs.deep_view().skip(
                from as int + 1,
            ));
            assert(cs.deep_view().skip(from as int)[0] == cs.deep_view()[from as int]);
            assert(cs.deep_view()[from as int] =~= cs@[from as int]@);
        }
        if keep_component_exec(&cs[from]) {
            rest.insert(0, cs[from].clone());
            proof {
                assert(cs[from as int]@ == cs.deep_view()[from as int]);
                assert(rest.deep_view() =~~= seq![cs.deep_view()[from as int]] + kept_comps(
                    cs.deep_view().skip(from as int + 1),
                ));
            }
            rest
        } else {
            proof {
                assert(!keep_component(cs.deep_view().skip(from as int)[0]));
                assert(rest.deep_view() =~~= kept_comps(cs.deep_view().skip(from as int)));
            }
            rest
        }
    }
}

/// The components of `cs` from `from` on, joined with `/`.
fn join_components(cs: &Vec<Vec<u8>>, from: usize) -> (r: Vec<u8>)
    requires
        from <= cs.len(),
    ensures
        r@ == join_comps(cs.deep_view().skip(from as int)),
    decreases cs.len() - from,
{
    if from == cs.len() {
        let v: Vec<u8> = Vec::new();
        proof {
            assert(cs.deep_view().skip(from as int) =~~= Seq::<Seq<u8>>::empty());
        }
        v
    } else if from + 1 == cs.len() {
        let r = cs[from].clone();
        proof {
            assert(cs.deep_view().skip(from as int).len() == 1);
            assert(cs.deep_view().skip(from as int)[0] == cs.deep_view()[from as int]);
            assert(r@ == cs.deep_view()[from as int]);
        }
        r
    } else {
        let mut r = cs[from].clone();
        r.push(SLASH);
        let mut rest = join_components(cs, from + 1);
        r.append(&mut rest);
        proof {
            let v = cs.deep_view().skip(from as int);
            assert(v.len() >= 2);
            assert(v[0] == cs.deep_view()[from as int]);
            assert(v.skip(1) =~~= cs.deep_view().skip(from as int + 1));
            assert(r@ =~= v[0] + seq![SLASH] + join_comps(v.skip(1)));
        }
        r
    }
}

/// Normalize a stored or derived path: drop every empty, current-directory,
/// parent-directory and root component, and join what is left with `/`.
/// This is the path-safety boundary that keeps extraction confined under its
/// target directory.
pub fn sanitize_path(path: &Vec<u8>) -> (r: Vec<u8>)
    ensures
        r@ == spec_sanitize(path@),
{
    let comps = split_path(path, 0);
    proof {
        assert(path@.skip(0) =~= path@);
    }
    let kept = kept_components(&comps, 0);
    proof {
        assert(comps.deep_view().skip(0) =~~= comps.deep_view());
        assert(kept.deep_view().skip(0) =~~= kept.deep_view());
    }
    join_components(&kept, 0)
}

/// `p` with the leading root `root` (and one following separator) removed;
/// `p` unchanged if it does not start with `root`.
pub open spec fn spec_strip_prefix(p: Seq<u8>, root: Seq<u8>) -> Seq<u8> {
    if root.len() <= p.len() && p.subrange(0, root.len() as int) == root {
        let rest = p.skip(root.len() as int);
        if rest.len() > 0 && rest[0] == SLASH {
            rest.skip(1)
        } else {
            rest
        }
    } else {
        p
    }
}

/// Whether `p` starts with the bytes of `root`.
fn starts_with(p: &Vec<u8>, root: &Vec<u8>) -> (r: bool)
    ensures
        r == (root@.len() <= p@.len() && p@.subrange(0, root@.len() as int) == root@),
{
    if root.len() > p.len() {
        return false;
    }
    let n = root.len();
    let mut i: usize = 0;
    while i < n
        invariant
            i <= n <= p.len(),
            n == root@.len(),
            forall|j: int| 0 <= j < i ==> p@[j] == root@[j],
        decreases n - i,
    {
        if p[i] != root[i] {
            proof {
                assert(p@.subrange(0, n as int)[i as int] != root@[i as int]);
            }
            return false;
        }
        i = i + 1;
    }
    proof {
        assert(p@.subrange(0, n as int) =~= root@);
    }
    true
}

/// The archive path for a file found at `file_path` under the input root
/// `dir_root`: the path relative to the root, sanitized.
pub fn calculate_archive_path(file_path: &Vec<u8>, dir_root: &Vec<u8>) -> (r: Vec<u8>)
    ensures
        r@ == spec_sanitize(spec_strip_prefix(file_path@, dir_root@)),
{
    let n = dir_root.len();
    let is_prefix = starts_with(file_path, dir_root);
    if is_prefix {
        let rest_start = if file_path.len() > n && file_path[n] == SLASH {
            n + 1
        } else {
            n
        };
        let mut rest: Vec<u8> = Vec::new();
        crate::bytes::extend_range(&mut rest, file_path, rest_start, file_path.len());
        proof {
            let rst = file_path@.skip(n as int);
            if rest_start == n + 1 {
                assert(rest@ =~= rst.skip(1));
            } else {
                assert(rest@ =~= rst);
            }
        }
        sanitize_path(&rest)
    } else {
        sanitize_path(file_path)
    }
}

/// Whether `s` is exactly this one byte.
fn eq1(s: &Vec<u8>, b0: u8) -> (r: bool)
    ensures
        r == (s@ == seq![b0]),
{
    let r = s.len() == 1 && s[0] == b0;
    proof {
        if r {
            assert(s@ =~= seq![b0]);
        } else {
            assert(s@ != seq![b0]);
        }
    }
    r
}

/// Whether `s` is exactly these two bytes.
fn eq2(s: &Vec<u8>, b0: u8, b1: u8) -> (r: bool)
    ensures
        r == (s@ == seq![b0, b1]),
{
    let r = s.len() == 2 && s[0] == b0 && s[1] == b1;
    proof {
        if r {
            assert(s@ =~= seq![b0, b1]);
        } else {
            assert(s@ != seq![b0, b1]);
        }
    }
    r
}

/// Whether `s` is exactly these three bytes.
fn eq3(s: &Vec<u8>, b0: u8, b1: u8, b2: u8) -> (r: bool)
    ensures
        r == (s@ == seq![b0, b1, b2]),
{
    let r = s.len() == 3 && s[0] == b0 && s[1] == b1 && s[2] == b2;
    proof {
        if r {
            assert(s@ =~= seq![b0, b1, b2]);
        } else {
            assert(s@ != seq![b0, b1, b2]);
        }
    }
    r
}

/// Whether `s` is exactly these four bytes.
fn eq4(s: &Vec<u8>, b0: u8, b1: u8, b2: u8, b3: u8) -> (r: bool)
    ensures
        r == (s@ == seq![b0, b1, b2, b3]),
{
    let r = s.len() == 4 && s[0] == b0 && s[1] == b1 && s[2] == b2 && s[3] == b3;
    proof {
        if r {
            assert(s@ =~= seq![b0, b1, b2, b3]);
        } else {
            assert(s@ != seq![b0, b1, b2, b3]);
        }
    }
    r
}

/// Whether `s` is exactly these five bytes.
fn eq5(s: &Vec<u8>, b0: u8, b1: u8, b2: u8, b3: u8, b4: u8) -> (r: bool)
    ensures
        r == (s@ == seq![b0, b1, b2, b3, b4]),
{
    let r = s.len() == 5 && s[0] == b0 && s[1] == b1 && s[2] == b2 && s[3] == b3 && s[4] == b4;
    proof {
        if r {
            assert(s@ =~= seq![b0, b1, b2, b3, b4]);
        } else {
            assert(s@ != seq![b0, b1, b2, b3, b4]);
        }
    }
    r
}

/// Whether `s` is exactly these six bytes.
fn eq6(s: &Vec<u8>, b0: u8, b1: u8, b2: u8, b3: u8, b4: u8, b5: u8) -> (r: bool)
    ensures
        r == (s@ == seq![b0, b1, b2, b3, b4, b5]),
{
    let r = s.len() == 6 && s[0] == b0 && s[1] == b1 && s[2] == b2 && s[3] == b3 && s[4] == b4 && s[5] == b5;
    proof {
        if r {
            assert(s@ =~= seq![b0, b1, b2, b3, b4, b5]);
        } else {
            assert(s@ != seq![b0, b1, b2, b3, b4, b5]);
        }
    }
    r
}

/// Recognized text and source extensions, compressed with the maximum-ratio
/// text codec.
pub open spec fn is_text_ext(e: Seq<u8>) -> bool {
    ||| e == seq![114u8, 115u8]  // rs
    ||| e == seq![112u8, 121u8]  // py
    ||| e == seq![106u8, 115u8]  // js
    ||| e == seq![99u8]  // c
    ||| e == seq![104u8]  // h
    ||| e == seq![99u8, 112u8, 112u8]  // cpp
    ||| e == seq![99u8, 99u8]  // cc
    ||| e == seq![99u8, 120u8, 120u8]  // cxx
    ||| e == seq![103u8, 111u8]  // go
    ||| e == seq![106u8, 97u8, 118u8, 97u8]  // java
    ||| e == seq![114u8, 98u8]  // rb
    ||| e == seq![116u8, 115u8, 120u8]  // tsx
    ||| e == seq![106u8, 115u8, 120u8]  // jsx
    ||| e == seq![99u8, 115u8, 115u8]  // css
    ||| e == seq![104u8, 116u8, 109u8, 108u8]  // html
    ||| e == seq![106u8, 115u8, 111u8, 110u8]  // json
    ||| e == seq![121u8, 97u8, 109u8, 108u8]  // yaml
    ||| e == seq![121u8, 109u8, 108u8]  // yml
    ||| e == seq![120u8, 109u8, 108u8]  // xml
    ||| e == seq![116u8, 120u8, 116u8]  // txt
    ||| e == seq![109u8, 100u8]  // md
    ||| e == seq![116u8, 111u8, 109u8, 108u8]  // toml
    ||| e == seq![115u8, 104u8]  // sh
    ||| e == seq![98u8, 97u8, 115u8, 104u8]  // bash
    ||| e == seq![115u8, 99u8, 97u8, 108u8, 97u8]  // scala
    ||| e == seq![107u8, 116u8]  // kt
    ||| e == seq![99u8, 115u8]  // cs
    ||| e == seq![118u8, 98u8]  // vb
    ||| e == seq![112u8, 104u8, 112u8]  // php
    ||| e == seq![112u8, 108u8]  // pl
    ||| e == seq![108u8, 117u8, 97u8]  // lua
    ||| e == seq![118u8, 105u8, 109u8]  // vim
    ||| e == seq![108u8, 105u8, 115u8, 112u8]  // lisp
    ||| e == seq![99u8, 108u8, 106u8]  // clj
    ||| e == seq![101u8, 120u8]  // ex
    ||| e == seq![101u8, 114u8, 108u8]  // erl
    ||| e == seq![103u8, 114u8, 97u8, 100u8, 108u8, 101u8]  // gradle
    ||| e == seq![109u8, 97u8, 118u8, 101u8, 110u8]  // maven
    ||| e == seq![115u8, 98u8, 116u8]  // sbt
}

/// Recognized already-compressed media, container and archive extensions,
/// stored verbatim.
pub open spec fn is_stored_ext(e: Seq<u8>) -> bool {
    ||| e == seq![106u8, 112u8, 103u8]  // jpg
    ||| e == seq![106u8, 112u8, 101u8, 103u8]  // jpeg
    ||| e == seq![112u8, 110u8, 103u8]  // png
    ||| e == seq![103u8, 105u8, 102u8]  // gif
    ||| e == seq![119u8, 101u8, 98u8, 112u8]  // webp
    ||| e == seq![115u8, 118u8, 103u8]  // svg
    ||| e == seq![105u8, 99u8, 111u8]  // ico
    ||| e == seq![98u8, 109u8, 112u8]  // bmp
    ||| e == seq![116u8, 105u8, 102u8, 102u8]  // tiff
    ||| e == seq![112u8, 115u8, 100u8]  // psd
    ||| e == seq![104u8, 101u8, 105u8, 99u8]  // heic
    ||| e == seq![109u8, 112u8, 52u8]  // mp4
    ||| e == seq![109u8, 107u8, 118u8]  // mkv
    ||| e == seq![97u8, 118u8, 105u8]  // avi
    ||| e == seq![109u8, 111u8, 118u8]  // mov
    ||| e == seq![119u8, 101u8, 98u8, 109u8]  // webm
    ||| e == seq![102u8, 108u8, 118u8]  // flv
    ||| e == seq![109u8, 52u8, 118u8]  // m4v
    ||| e == seq![119u8, 109u8, 118u8]  // wmv
    ||| e == seq![51u8, 103u8, 112u8]  // 3gp
    ||| e == seq![109u8, 50u8, 116u8, 115u8]  // m2ts
    ||| e == seq![109u8, 116u8, 115u8]  // mts
    ||| e == seq![116u8, 115u8]  // ts
    ||| e == seq![109u8, 112u8, 51u8]  // mp3
    ||| e == seq![97u8, 97u8, 99u8]  // aac
    ||| e == seq![102u8, 108u8, 97u8, 99u8]  // flac
    ||| e == seq![119u8, 97u8, 118u8]  // wav
    ||| e == seq![109u8, 52u8, 97u8]  // m4a
    ||| e == seq![111u8, 112u8, 117u8, 115u8]  // opus
    ||| e == seq![122u8, 105u8, 112u8]  // zip
    ||| e == seq![116u8, 97u8, 114u8]  // tar
    ||| e == seq![103u8, 122u8]  // gz
    ||| e == seq![98u8, 122u8, 50u8]  // bz2
    ||| e == seq![55u8, 122u8]  // 7z
    ||| e == seq![114u8, 97u8, 114u8]  // rar
    ||| e == seq![120u8, 122u8]  // xz
}

/// Whether `e` is a recognized text extension.
fn is_text_extension(e: &Vec<u8>) -> (r: bool)
    ensures
        r == is_text_ext(e@),
{
    eq2(e, 114, 115)
        || eq2(e, 112, 121)
        || eq2(e, 106, 115)
        || eq1(e, 99)
        || eq1(e, 104)
        || eq3(e, 99, 112, 112)
        || eq2(e, 99, 99)
        || eq3(e, 99, 120, 120)
        || eq2(e, 103, 111)
        || eq4(e, 106, 97, 118, 97)
        || eq2(e, 114, 98)
        || eq3(e, 116, 115, 120)
        || eq3(e, 106, 115, 120)
        || eq3(e, 99, 115, 115)
        || eq4(e, 104, 116, 109, 108)
        || eq4(e, 106, 115, 111, 110)
        || eq4(e, 121, 97, 109, 108)
        || eq3(e, 121, 109, 108)
        || eq3(e, 120, 109, 108)
        || eq3(e, 116, 120, 116)
        || eq2(e, 109, 100)
        || eq4(e, 116, 111, 109, 108)
        || eq2(e, 115, 104)
        || eq4(e, 98, 97, 115, 104)
        || eq5(e, 115, 99, 97, 108, 97)
        || eq2(e, 107, 116)
        || eq2(e, 99, 115)
        || eq2(e, 118, 98)
        || eq3(e, 112, 104, 112)
        || eq2(e, 112, 108)
        || eq3(e, 108, 117, 97)
        || eq3(e, 118, 105, 109)
        || eq4(e, 108, 105, 115, 112)
        || eq3(e, 99, 108, 106)
        || eq2(e, 101, 120)
        || eq3(e, 101, 114, 108)
        || eq6(e, 103, 114, 97, 100, 108, 101)
        || eq5(e, 109, 97, 118, 101, 110)
        || eq3(e, 115, 98, 116)
}

/// Whether `e` is a recognized already-compressed extension.
fn is_stored_extension(e: &Vec<u8>) -> (r: bool)
    ensures
        r == is_stored_ext(e@),
{
    eq3(e, 106, 112, 103)
        || eq4(e, 106, 112, 101, 103)
        || eq3(e, 112, 110, 103)
        || eq3(e, 103, 105, 102)
        || eq4(e, 119, 101, 98, 112)
        || eq3(e, 115, 118, 103)
        || eq3(e, 105, 99, 111)
        || eq3(e, 98, 109, 112)
        || eq4(e, 116, 105, 102, 102)
        || eq3(e, 112, 115, 100)
        || eq4(e, 104, 101, 105, 99)
        || eq3(e, 109, 112, 52)
        || eq3(e, 109, 107, 118)
        || eq3(e, 97, 118, 105)
        || eq3(e, 109, 111, 118)
        || eq4(e, 119, 101, 98, 109)
        || eq3(e, 102, 108, 118)
        || eq3(e, 109, 52, 118)
        || eq3(e, 119, 109, 118)
        || eq3(e, 51, 103, 112)
        || eq4(e, 109, 50, 116, 115)
        || eq3(e, 109, 116, 115)
        || eq2(e, 116, 115)
        || eq3(e, 109, 112, 51)
        || eq3(e, 97, 97, 99)
        || eq4(e, 102, 108, 97, 99)
        || eq3(e, 119, 97, 118)
        || eq3(e, 109, 52, 97)
        || eq4(e, 111, 112, 117, 115)
        || eq3(e, 122, 105, 112)
        || eq3(e, 116, 97, 114)
        || eq2(e, 103, 122)
        || eq3(e, 98, 122, 50)
        || eq2(e, 55, 122)
        || eq3(e, 114, 97, 114)
        || eq2(e, 120, 122)
}

/// Index of the last occurrence of `x` in `s`, or -1 if absent.
pub open spec fn last_index_of_byte(s: Seq<u8>, x: u8) -> int
    decreases s.len(),
{
    if s.len() == 0 {
        -1
    } else if s[s.len() - 1] == x {
        s.len() - 1
    } else {
        last_index_of_byte(s.drop_last(), x)
    }
}

/// Find the last occurrence of `x` in `s`.
fn last_index_of(s: &Vec<u8>, x: u8) -> (r: Option<usize>)
    ensures
        r matches Some(i) ==> last_index_of_byte(s@, x) == i && i < s.len(),
        r is None ==> last_index_of_byte(s@, x) == -1,
{
    let mut i = s.len();
    proof {
        assert(s@.take(i as int) =~= s@);
    }
    while i > 0
        invariant
            i <= s.len(),
            last_index_of_byte(s@, x) == last_index_of_byte(s@.take(i as int), x),
        decreases i,
    {
        i = i - 1;
        proof {
            assert(s@.take(i + 1).drop_last() =~= s@.take(i as int));
            assert(s@.take(i + 1)[i as int] == s@[i as int]);
        }
        if s[i] == x {
            return Some(i);
        }
    }
    proof {
        assert(s@.take(0) =~= Seq::<u8>::empty());
    }
    None
}

/// The part of `p` after its last separator.
pub open spec fn spec_file_name(p: Seq<u8>) -> Seq<u8> {
    p.skip(last_index_of_byte(p, SLASH) + 1)
}

/// The extension of `p`: what follows the last dot of its file name, absent
/// when the name has no dot or only a leading one.
pub open spec fn spec_extension(p: Seq<u8>) -> Option<Seq<u8>> {
    let name = spec_file_name(p);
    let d = last_index_of_byte(name, DOT);
    if d <= 0 {
        Option::None
    } else {
        Option::Some(name.skip(d + 1))
    }
}

/// `s` with ASCII upper-case letters lowered.
pub open spec fn ascii_lower(s: Seq<u8>) -> Seq<u8> {
    s.map_values(
        |b: u8|
            if 65 <= b <= 90 {
                (b + 32) as u8
            } else {
                b
            },
    )
}

/// The creation-time selection policy: recognized text extensions take the
/// maximum-ratio text codec, recognized already-compressed media keep their
/// bytes verbatim, and everything else takes the balanced default codec.
pub open spec fn spec_algorithm_for_path(p: Seq<u8>) -> CompressionAlgorithm {
    match spec_extension(p) {
        Option::Some(e) => {
            let l = ascii_lower(e);
            if is_text_ext(l) {
                CompressionAlgorithm::Lzma
            } else if is_stored_ext(l) {
                CompressionAlgorithm::Stored
            } else {
                CompressionAlgorithm::Zstandard
            }
        },
        Option::None => CompressionAlgorithm::Zstandard,
    }
}

/// Choose the compression algorithm for a file by its extension class.
pub fn get_compression_algorithm(path: &Vec<u8>) -> (r: CompressionAlgorithm)
    ensures
        r == spec_algorithm_for_path(path@),
{
    let name_start = match last_index_of(path, SLASH) {
        Some(i) => i + 1,
        Option::None => 0,
    };
    let mut name: Vec<u8> = Vec::new();
    crate::bytes::extend_range(&mut name, path, name_start, path.len());
    proof {
        assert(name@ =~= spec_file_name(path@));
    }
    let d = match last_index_of(&name, DOT) {
        Some(i) => i,
        Option::None => {
            return CompressionAlgorithm::Zstandard;
        },
    };
    if d == 0 {
        return CompressionAlgorithm::Zstandard;
    }
    let mut ext: Vec<u8> = Vec::new();
    crate::bytes::extend_range(&mut ext, &name, d + 1, name.len());
    proof {
        assert(ext@ =~= spec_file_name(path@).skip(d + 1));
    }
    let mut lower: Vec<u8> = Vec::new();
    let mut i: usize = 0;
    while i < ext.len()
        invariant
            i <= ext.len(),
            lower@.len() == i,
            forall|j: int| 0 <= j < i ==> lower@[j] == ascii_lower(ext@)[j],
        decreases ext.len() - i,
    {
        let b = ext[i];
        if 65 <= b && b <= 90 {
            lower.push(b + 32);
        } else {
            lower.push(b);
        }
        i = i + 1;
    }
    proof {
        assert(lower@ =~= ascii_lower(ext@));
    }
    if is_text_extension(&lower) {
        CompressionAlgorithm::Lzma
    } else if is_stored_extension(&lower) {
        CompressionAlgorithm::Stored
    } else {
        CompressionAlgorithm::Zstandard
    }
}

} // verus!
