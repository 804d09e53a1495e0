//! Filesystem paths as sequences of components.
//!
//! A path is kept as the list of its components, with the conventions of Unix
//! path syntax: a leading `/` is the root component `"/"`, a leading `.`
//! segment of a relative path is the current-directory component `"."`,
//! empty segments and inner `.` segments are dropped, and every other segment
//! (`..` included) is a component of its own. Two paths are equal when their
//! components are.

use vstd::prelude::*;
use vstd::string::*;
use crate::keyed::KeyEq;

verus! {

/// Whether a path segment is kept as a component of its own.
pub open spec fn is_normal(seg: Seq<char>) -> bool {
    seg.len() > 0 && seg != seq!['.']
}

/// The segments of `s` between `/` separators (empty ones included).
pub open spec fn split_slash(s: Seq<char>) -> Seq<Seq<char>>
    decreases s.len(),
{
    if s.len() == 0 {
        seq![Seq::<char>::empty()]
    } else {
        let prev = split_slash(s.drop_last());
        if s.last() == '/' {
            prev.push(Seq::<char>::empty())
        } else {
            prev.update(prev.len() - 1, prev.last().push(s.last()))
        }
    }
}

/// The segments among `segs` that are components of their own.
pub open spec fn normals(segs: Seq<Seq<char>>) -> Seq<Seq<char>>
    decreases segs.len(),
{
    if segs.len() == 0 {
        Seq::empty()
    } else {
        let prev = normals(segs.drop_last());
        if is_normal(segs.last()) {
            prev.push(segs.last())
        } else {
            prev
        }
    }
}

/// The root or current-directory component that begins a path, if any.
pub open spec fn head_component(s: Seq<char>) -> Seq<Seq<char>> {
    if s.len() > 0 && s[0] == '/' {
        seq![seq!['/']]
    } else if split_slash(s)[0] == seq!['.'] {
        seq![seq!['.']]
    } else {
        Seq::empty()
    }
}

/// The components of the path written `s`.
pub open spec fn path_components(s: Seq<char>) -> Seq<Seq<char>> {
    head_component(s) + normals(split_slash(s))
}

/// `a` is a (component-wise) prefix of `b`.
pub open spec fn is_prefix(a: Seq<Seq<char>>, b: Seq<Seq<char>>) -> bool {
    a.len() <= b.len() && b.take(a.len() as int) == a
}

/// The parent of a path: all components but the last, provided there is a
/// last component and it is not the root.
pub open spec fn parent_of(p: Seq<Seq<char>>) -> Option<Seq<Seq<char>>> {
    if p.len() > 0 && p.last() != seq!['/'] {
        Some(p.drop_last())
    } else {
        None
    }
}

/// Components joined by `/`.
pub open spec fn join(p: Seq<Seq<char>>) -> Seq<char>
    decreases p.len(),
{
    if p.len() == 0 {
        Seq::empty()
    } else if p.len() == 1 {
        p[0]
    } else {
        join(p.drop_last()) + seq!['/'] + p.last()
    }
}

/// The text of a path: the root followed by the other components joined
/// by `/`, or the components joined by `/`.
pub open spec fn render(p: Seq<Seq<char>>) -> Seq<char> {
    if p.len() > 0 && p[0] == seq!['/'] {
        seq!['/'] + join(p.skip(1))
    } else {
        join(p)
    }
}

proof fn lemma_split_slash_nonempty(s: Seq<char>)
    ensures
        split_slash(s).len() >= 1,
    decreases s.len(),
{
    if s.len() > 0 {
        lemma_split_slash_nonempty(s.drop_last());
    }
}

proof fn lemma_split_slash_step(s: Seq<char>, i: int)
    requires
        0 <= i < s.len(),
    ensures
        split_slash(s.take(i + 1)) == (if s[i] == '/' {
            split_slash(s.take(i)).push(Seq::<char>::empty())
        } else {
            let p = split_slash(s.take(i));
            p.update(p.len() - 1, p.last().push(s[i]))
        }),
{
    assert(s.take(i + 1).drop_last() =~= s.take(i));
}

proof fn lemma_split_first_stable(s: Seq<char>, i: int)
    requires
        0 <= i < s.len(),
        split_slash(s.take(i)).len() >= 2,
    ensures
        split_slash(s.take(i + 1))[0] == split_slash(s.take(i))[0],
        split_slash(s.take(i + 1)).len() >= 2,
{
    lemma_split_slash_step(s, i);
}

/// A filesystem path, held as its components.
#[derive(Debug, PartialEq, Eq)]
pub struct FsPath {
    comps: Vec<String>,
}

impl View for FsPath {
    type V = Seq<Seq<char>>;

    closed spec fn view(&self) -> Seq<Seq<char>> {
        self.comps@.map_values(|c: String| c@)
    }
}

impl Clone for FsPath {
    fn clone(&self) -> (p: Self)
        ensures
            p@ == self@,
    {
        let comps = self.comps.clone();
        proof {
            assert forall|i: int| 0 <= i < comps@.len() implies comps@[i]@ == self.comps@[i]@ by {
                assert(cloned::<String>(self.comps[i], comps[i]));
            }
            assert(comps@.map_values(|c: String| c@) =~= self.comps@.map_values(|c: String| c@));
        }
        FsPath { comps }
    }
}

impl FsPath {
    /// The path written `s`.
    pub fn new(s: &str) -> (p: FsPath)
        ensures
            p@ == path_components(s@),
    {
        let n = s.unicode_len();
        let ghost sv = s@;
        let rooted = n > 0 && s.get_char(0) == '/';
        let mut normal: Vec<String> = Vec::new();
        let mut seg_start: usize = 0;
        let mut first_is_dot = false;
        let mut seen_slash = false;
        let mut i: usize = 0;
        proof {
            assert(sv.take(0) =~= Seq::<char>::empty());
        }
        while i < n
            invariant
                n == sv.len(),
                sv == s@,
                0 <= seg_start <= i <= n,
                split_slash(sv.take(i as int)).last() == sv.subrange(seg_start as int, i as int),
                normal@.map_values(|c: String| c@) == normals(
                    split_slash(sv.take(i as int)).drop_last(),
                ),
                seen_slash <==> split_slash(sv.take(i as int)).len() >= 2,
                seen_slash ==> (first_is_dot <==> split_slash(sv.take(i as int))[0] == seq!['.']),
                !seen_slash ==> seg_start == 0,
            decreases n - i,
        {
            proof {
                lemma_split_slash_step(sv, i as int);
                lemma_split_slash_nonempty(sv.take(i as int));
            }
            let c = s.get_char(i);
            let ghost prev = split_slash(sv.take(i as int));
            if c == '/' {
                let seg_len = i - seg_start;
                let is_dot = seg_len == 1 && s.get_char(seg_start) == '.';
                proof {
                    let cur = sv.subrange(seg_start as int, i as int);
                    assert(is_dot <==> cur == seq!['.']) by {
                        if cur == seq!['.'] {
                            assert(cur[0] == sv[seg_start as int]);
                        }
                        if is_dot {
                            assert(cur =~= seq!['.']);
                        }
                    }
                    let next = split_slash(sv.take(i + 1));
                    assert(next.drop_last() =~= prev);
                    assert(prev.drop_last().push(prev.last()) =~= prev);
                }
                if seg_len > 0 && !is_dot {
                    let seg = String::from_str(s.substring_char(seg_start, i));
                    normal.push(seg);
                    proof {
                        assert(normal@.map_values(|c: String| c@) =~= normals(
                            split_slash(sv.take(i as int)).drop_last(),
                        ).push(prev.last()));
                    }
                }
                if !seen_slash {
                    first_is_dot = is_dot;
                    seen_slash = true;
                }
                seg_start = i + 1;
                proof {
                    assert(sv.subrange(seg_start as int, i + 1) =~= Seq::<char>::empty());
                }
            } else {
                proof {
                    let next = split_slash(sv.take(i + 1));
                    assert(next.drop_last() =~= prev.drop_last());
                    assert(sv.subrange(seg_start as int, i + 1) =~= sv.subrange(
                        seg_start as int,
                        i as int,
                    ).push(c));
                    if seen_slash {
                        lemma_split_first_stable(sv, i as int);
                    }
                }
            }
            i = i + 1;
        }
        proof {
            assert(sv.take(n as int) =~= sv);
            lemma_split_slash_nonempty(sv);
        }
        // the last segment
        let seg_len = n - seg_start;
        let is_dot = seg_len == 1 && s.get_char(seg_start) == '.';
        let ghost segs = split_slash(sv);
        proof {
            let cur = sv.subrange(seg_start as int, n as int);
            assert(is_dot <==> cur == seq!['.']) by {
                if cur == seq!['.'] {
                    assert(cur[0] == sv[seg_start as int]);
                }
                if is_dot {
                    assert(cur =~= seq!['.']);
                }
            }
            assert(segs.drop_last().push(segs.last()) =~= segs);
        }
        if seg_len > 0 && !is_dot {
            let seg = String::from_str(s.substring_char(seg_start, n));
            normal.push(seg);
            proof {
                assert(normal@.map_values(|c: String| c@) =~= normals(segs.drop_last()).push(
                    segs.last(),
                ));
            }
        }
        if !seen_slash {
            first_is_dot = is_dot;
        }
        proof {
            assert(normal@.map_values(|c: String| c@) == normals(segs));
            assert(first_is_dot <==> segs[0] == seq!['.']);
        }
        let mut comps: Vec<String> = Vec::new();
        proof {
            reveal_strlit("/");
            reveal_strlit(".");
        }
        if rooted {
            comps.push(String::from_str("/"));
            proof {
                assert(comps@[0]@ =~= seq!['/']);
                assert(comps@.map_values(|c: String| c@)[0] == seq!['/']);
                assert(comps@.map_values(|c: String| c@) =~= seq![seq!['/']]);
            }
        } else if first_is_dot {
            comps.push(String::from_str("."));
            proof {
                assert(comps@[0]@ =~= seq!['.']);
                assert(comps@.map_values(|c: String| c@)[0] == seq!['.']);
                assert(comps@.map_values(|c: String| c@) =~= seq![seq!['.']]);
            }
        } else {
            proof {
                assert(comps@.map_values(|c: String| c@) =~= Seq::<Seq<char>>::empty());
            }
        }
        let ghost head = comps@.map_values(|c: String| c@);
        proof {
            assert(head =~= head_component(sv));
        }
        let mut k: usize = 0;
        let ghost hl = comps@.len();
        while k < normal.len()
            invariant
                hl == head.len(),
                comps@.len() == hl + k,
                k <= normal@.len(),
                comps@.map_values(|c: String| c@) =~= head + normal@.map_values(|c: String| c@).take(k as int),
            decreases normal@.len() - k,
        {
            let c = normal[k].clone();
            let ghost before = comps@;
            comps.push(c);
            proof {
                assert(comps@.map_values(|c: String| c@) =~= before.map_values(|c: String| c@).push(
                    c@,
                ));
                assert(normal@.map_values(|c: String| c@).take(k + 1) =~= normal@.map_values(
                    |c: String| c@,
                ).take(k as int).push(normal@[k as int]@));
            }
            k = k + 1;
        }
        proof {
            assert(normal@.map_values(|c: String| c@).take(k as int) =~= normal@.map_values(
                |c: String| c@,
            ));
        }
        FsPath { comps }
    }

    /// Number of components.
    pub fn component_count(&self) -> (n: usize)
        ensures
            n == self@.len(),
    {
        self.comps.len()
    }

    /// The component at position `i`.
    pub fn component(&self, i: usize) -> (c: String)
        requires
            i < self@.len(),
        ensures
            c@ == self@[i as int],
    {
        let c = self.comps[i].clone();
        proof {
            assert(cloned::<String>(self.comps[i as int], c));
        }
        c
    }

    /// Whether two paths have the same components.
    pub fn same_as(&self, other: &FsPath) -> (r: bool)
        ensures
            r == (self@ == other@),
    {
        if self.comps.len() != other.comps.len() {
            proof {
                assert(self@.len() != other@.len());
            }
            return false;
        }
        let r = self.agrees_with(other, self.comps.len());
        proof {
            assert(self@.take(self@.len() as int) =~= self@);
            assert(other@.take(other@.len() as int) =~= other@);
        }
        r
    }

    /// Whether the first `k` components of the two paths agree.
    fn agrees_with(&self, other: &FsPath, k: usize) -> (r: bool)
        requires
            k <= self@.len(),
            k <= other@.len(),
        ensures
            r == (self@.take(k as int) == other@.take(k as int)),
    {
        let mut i: usize = 0;
        while i < k
            invariant
                i <= k <= self@.len(),
                k <= other@.len(),
                self@.take(i as int) =~= other@.take(i as int),
            decreases k - i,
        {
            if self.comps[i] != other.comps[i] {
                proof {
                    assert(self@.take(k as int)[i as int] != other@.take(k as int)[i as int]);
                }
                return false;
            }
            proof {
                assert(self@.take(i + 1) =~= self@.take(i as int).push(self@[i as int]));
                assert(other@.take(i + 1) =~= other@.take(i as int).push(other@[i as int]));
            }
            i = i + 1;
        }
        true
    }

    /// Whether `base` is a component-wise prefix of this path.
    pub fn starts_with(&self, base: &FsPath) -> (r: bool)
        ensures
            r == is_prefix(base@, self@),
    {
        if base.comps.len() > self.comps.len() {
            return false;
        }
        let r = self.agrees_with(base, base.comps.len());
        proof {
            assert(base@.take(base@.len() as int) =~= base@);
        }
        r
    }

    /// The path without its last component, unless it is empty or the root.
    pub fn parent(&self) -> (r: Option<FsPath>)
        ensures
            r matches Some(p) ==> parent_of(self@) == Some(p@),
            r is None ==> parent_of(self@) is None,
    {
        let n = self.comps.len();
        if n == 0 {
            return None;
        }
        proof {
            reveal_strlit("/");
            assert(self@[n - 1] == self.comps@[n - 1]@);
        }
        let root = String::from_str("/");
        let is_root = self.comps[n - 1] == root;
        proof {
            assert(root@ =~= seq!['/']);
            assert(is_root <==> self@.last() == seq!['/']);
        }
        if is_root {
            return None;
        }
        let p = self.prefix_path(n - 1);
        proof {
            assert(self@.drop_last() =~= self@.take(n - 1));
        }
        Some(p)
    }

    /// The path made of the first `k` components.
    fn prefix_path(&self, k: usize) -> (p: FsPath)
        requires
            k <= self@.len(),
        ensures
            p@ == self@.take(k as int),
    {
        let mut comps: Vec<String> = Vec::new();
        let mut i: usize = 0;
        while i < k
            invariant
                i <= k <= self@.len(),
                comps@.map_values(|c: String| c@) =~= self@.take(i as int),
            decreases k - i,
        {
            let c = self.comps[i].clone();
            comps.push(c);
            proof {
                assert(self@.take(i + 1) =~= self@.take(i as int).push(self@[i as int]));
            }
            i = i + 1;
        }
        FsPath { comps }
    }

    /// The path made of the components from index `k` on.
    fn suffix_path(&self, k: usize) -> (p: FsPath)
        requires
            k <= self@.len(),
        ensures
            p@ == self@.skip(k as int),
    {
        let mut comps: Vec<String> = Vec::new();
        let mut i: usize = k;
        while i < self.comps.len()
            invariant
                k <= i <= self@.len(),
                comps@.map_values(|c: String| c@) =~= self@.subrange(k as int, i as int),
            decreases self@.len() - i,
        {
            let c = self.comps[i].clone();
            comps.push(c);
            proof {
                assert(self@.subrange(k as int, i + 1) =~= self@.subrange(k as int, i as int).push(
                    self@[i as int],
                ));
            }
            i = i + 1;
        }
        proof {
            assert(self@.subrange(k as int, self@.len() as int) =~= self@.skip(k as int));
        }
        FsPath { comps }
    }

    /// The rest of the path after `base`, if `base` is a prefix of it.
    pub fn strip_prefix(&self, base: &FsPath) -> (r: Option<FsPath>)
        ensures
            r matches Some(p) ==> is_prefix(base@, self@) && p@ == self@.skip(base@.len() as int),
            r is None ==> !is_prefix(base@, self@),
    {
        if self.starts_with(base) {
            Some(self.suffix_path(base.comps.len()))
        } else {
            None
        }
    }

    /// The first component as a path of its own, and the rest of the path
    /// if anything is left.
    pub fn split_first(&self) -> (r: Option<(FsPath, Option<FsPath>)>)
        ensures
            r is None <==> self@.len() == 0,
            r matches Some((first, rest)) ==> {
                &&& first@ == self@.take(1)
                &&& (self@.len() == 1 <==> rest is None)
                &&& (rest matches Some(p) ==> p@ == self@.skip(1))
            },
    {
        if self.comps.len() == 0 {
            return None;
        }
        let first = self.prefix_path(1);
        if self.comps.len() == 1 {
            Some((first, None))
        } else {
            Some((first, Some(self.suffix_path(1))))
        }
    }

    /// The text of the path.
    pub fn to_string(&self) -> (s: String)
        ensures
            s@ == render(self@),
    {
        let mut s = String::new();
        let n = self.comps.len();
        if n == 0 {
            return s;
        }
        proof {
            reveal_strlit("/");
            assert(self@[0] == self.comps@[0]@);
        }
        let root = String::from_str("/");
        let rooted = self.comps[0] == root;
        proof {
            assert(root@ =~= seq!['/']);
            assert(rooted <==> self@[0] == seq!['/']);
        }
        let start: usize = if rooted { 1 } else { 0 };
        if rooted {
            s.append("/");
        }
        let ghost base = s@;
        let mut i: usize = start;
        while i < n
            invariant
                start <= i <= n,
                n == self@.len(),
                s@ == base + join(self@.subrange(start as int, i as int)),
            decreases n - i,
        {
            let ghost p = self@.subrange(start as int, i + 1);
            proof {
                assert(p.drop_last() =~= self@.subrange(start as int, i as int));
                assert(p.last() == self.comps@[i as int]@);
            }
            if i > start {
                s.append("/");
                proof {
                    assert(p.len() >= 2);
                    assert(join(p) == join(p.drop_last()) + seq!['/'] + p.last());
                }
            } else {
                proof {
                    assert(self@.subrange(start as int, i as int) =~= Seq::<Seq<char>>::empty());
                }
            }
            s.append(self.comps[i].as_str());
            proof {
                reveal_strlit("/");
                assert("/"@ =~= seq!['/']);
                if i > start {
                    assert(s@ =~= base + join(p));
                } else {
                    assert(s@ =~= base + join(p));
                }
            }
            i = i + 1;
        }
        proof {
            assert(self@.subrange(start as int, n as int) =~= self@.skip(start as int));
            if !rooted {
                assert(self@.skip(0) =~= self@);
            }
        }
        s
    }
}

/// The path `name` joined to `base`: `name` itself where it is absolute or
/// `base` is empty, else the path written as `base`, `/` and `name`.
pub open spec fn joined(base: Seq<Seq<char>>, name: Seq<char>) -> Seq<Seq<char>> {
    if base.len() == 0 || (name.len() > 0 && name[0] == '/') {
        path_components(name)
    } else {
        path_components(render(base) + seq!['/'] + name)
    }
}

impl FsPath {
    /// The path `name` joined to this one.
    pub fn join(&self, name: &str) -> (p: FsPath)
        ensures
            p@ == joined(self@, name@),
    {
        if self.comps.len() == 0 || (name.unicode_len() > 0 && name.get_char(0) == '/') {
            proof {
                assert(self@.len() == self.comps@.len());
            }
            return FsPath::new(name);
        }
        let mut s = self.to_string();
        s.append("/");
        s.append(name);
        proof {
            reveal_strlit("/");
            assert(s@ =~= render(self@) + seq!['/'] + name@);
        }
        FsPath::new(s.as_str())
    }
}

impl KeyEq for FsPath {
    open spec fn key_ok() -> bool {
        true
    }

    fn key_eq(&self, other: &Self) -> (r: bool) {
        self.same_as(other)
    }

    fn key_clone(&self) -> (r: Self) {
        self.clone()
    }
}

} // verus!
