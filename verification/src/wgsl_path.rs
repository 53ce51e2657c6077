use vstd::prelude::*;

verus! {

/// The byte `/`.
pub const SLASH: u8 = 47u8;

/// The byte `.`.
pub const DOT: u8 = 46u8;

/// A component of a path, as `std::path::Component` reads it on Unix.
#[derive(Debug, Clone, PartialEq, Eq, Hash)]
pub enum Component {
    RootDir,
    CurDir,
    ParentDir,
    Normal(Vec<u8>),
}

/// A component as a value.
pub enum Comp {
    Root,
    Cur,
    Parent,
    Normal(Seq<u8>),
}

impl Component {
    pub open spec fn view(&self) -> Comp {
        match self {
            Component::RootDir => Comp::Root,
            Component::CurDir => Comp::Cur,
            Component::ParentDir => Comp::Parent,
            Component::Normal(s) => Comp::Normal(s@),
        }
    }

    fn copy(&self) -> (c: Self)
        ensures
            c.view() == self.view(),
    {
        match self {
            Component::RootDir => Component::RootDir,
            Component::CurDir => Component::CurDir,
            Component::ParentDir => Component::ParentDir,
            Component::Normal(s) => Component::Normal(s.clone()),
        }
    }

    fn same(&self, other: &Self) -> (b: bool)
        ensures
            b == (self.view() == other.view()),
    {
        match (self, other) {
            (Component::RootDir, Component::RootDir) => true,
            (Component::CurDir, Component::CurDir) => true,
            (Component::ParentDir, Component::ParentDir) => true,
            (Component::Normal(a), Component::Normal(b)) => bytes_eq(a, b),
            _ => false,
        }
    }
}

/// Whether two byte strings are equal.
pub fn bytes_eq(a: &Vec<u8>, b: &Vec<u8>) -> (r: bool)
    ensures
        r == (a@ == b@),
{
    if a.len() != b.len() {
        return false;
    }
    let mut i: usize = 0;
    while i < a.len()
        invariant
            a@.len() == b@.len(),
            i <= a@.len(),
            forall|j: int| 0 <= j < i ==> a@[j] == b@[j],
        decreases a@.len() - i,
    {
        if a[i] != b[i] {
            return false;
        }
        i = i + 1;
    }
    proof {
        assert(a@ =~= b@);
    }
    true
}

/// A path, held as its components: what a `PathBuf` is compared and hashed by.
#[derive(Debug, Clone, PartialEq, Eq, Hash)]
pub struct ModPath {
    comps: Vec<Component>,
}

/// The components as values.
pub open spec fn comps_view(v: Seq<Component>) -> Seq<Comp> {
    v.map_values(|c: Component| c.view())
}

proof fn lemma_comps_view_push(v: Seq<Component>, c: Component)
    ensures
        comps_view(v.push(c)) == comps_view(v).push(c.view()),
{
    assert(comps_view(v.push(c)) =~= comps_view(v).push(c.view())) by {
        assert forall|k: int| 0 <= k < v.len() + 1 implies comps_view(v.push(c))[k] == comps_view(
            v,
        ).push(c.view())[k] by {
            if k < v.len() {
                assert(v.push(c)[k] == v[k]);
            }
        }
    }
}

impl ModPath {
    pub closed spec fn view(&self) -> Seq<Comp> {
        comps_view(self.comps@)
    }

    pub fn components(&self) -> (c: &Vec<Component>)
        ensures
            comps_view(c@) == self.view(),
    {
        &self.comps
    }

    pub fn copy(&self) -> (p: Self)
        ensures
            p.view() == self.view(),
    {
        let mut comps: Vec<Component> = Vec::new();
        let mut i: usize = 0;
        while i < self.comps.len()
            invariant
                i <= self.comps@.len(),
                comps_view(comps@) == comps_view(self.comps@).take(i as int),
            decreases self.comps@.len() - i,
        {
            let c = self.comps[i].copy();
            proof {
                lemma_comps_view_push(comps@, c);
            }
            comps.push(c);
            i = i + 1;
            proof {
                assert(comps_view(comps@) =~= comps_view(self.comps@).take(i as int));
            }
        }
        proof {
            assert(comps_view(self.comps@).take(i as int) =~= comps_view(self.comps@));
        }
        ModPath { comps }
    }

    pub fn same(&self, other: &Self) -> (b: bool)
        ensures
            b == (self.view() == other.view()),
    {
        if self.comps.len() != other.comps.len() {
            proof {
                assert(self.view().len() != other.view().len());
            }
            return false;
        }
        let mut i: usize = 0;
        while i < self.comps.len()
            invariant
                self.comps@.len() == other.comps@.len(),
                i <= self.comps@.len(),
                forall|j: int| 0 <= j < i ==> self.view()[j] == other.view()[j],
            decreases self.comps@.len() - i,
        {
            if !self.comps[i].same(&other.comps[i]) {
                proof {
                    assert(self.view()[i as int] != other.view()[i as int]);
                }
                return false;
            }
            i = i + 1;
        }
        proof {
            assert(self.view() =~= other.view());
        }
        true
    }

    fn from_comps(comps: Vec<Component>) -> (p: Self)
        ensures
            p.view() == comps_view(comps@),
    {
        ModPath { comps }
    }
}

// reading a path from its bytes

/// What a segment between separators contributes: nothing for an empty one or
/// `.`, a parent for `..`, else a normal component.
pub open spec fn seg_comp(s: Seq<u8>) -> Seq<Comp> {
    if s.len() == 0 || s =~= seq![DOT] {
        Seq::empty()
    } else if s =~= seq![DOT, DOT] {
        seq![Comp::Parent]
    } else {
        seq![Comp::Normal(s)]
    }
}

/// The components of the complete segments of `b`, and the segment still open
/// at its end.
pub open spec fn segs(b: Seq<u8>) -> (Seq<Comp>, Seq<u8>)
    decreases b.len(),
{
    if b.len() == 0 {
        (Seq::empty(), Seq::empty())
    } else {
        let (c, cur) = segs(b.drop_last());
        if b.last() == SLASH {
            (c + seg_comp(cur), Seq::empty())
        } else {
            (c, cur.push(b.last()))
        }
    }
}

/// Whether the path starts with a `.` segment that `std` keeps as a component.
pub open spec fn leading_cur(b: Seq<u8>) -> bool {
    &&& b.len() > 0
    &&& b[0] == DOT
    &&& (b.len() == 1 || b[1] == SLASH)
}

/// The components of the path with bytes `b` (what `Path::components` gives on Unix).
pub open spec fn parse_path(b: Seq<u8>) -> Seq<Comp> {
    let root = b.len() > 0 && b[0] == SLASH;
    (if root {
        seq![Comp::Root]
    } else {
        Seq::empty()
    }) + (if !root && leading_cur(b) {
        seq![Comp::Cur]
    } else {
        Seq::empty()
    }) + segs(b).0 + seg_comp(segs(b).1)
}

fn seg_comp_exec(s: Vec<u8>, comps: &mut Vec<Component>)
    ensures
        comps_view(final(comps)@) == comps_view(old(comps)@) + seg_comp(s@),
{
    let n = s.len();
    if n == 0 || (n == 1 && s[0] == DOT) {
        proof {
            assert(comps_view(comps@) + seg_comp(s@) =~= comps_view(comps@));
        }
    } else if n == 2 && s[0] == DOT && s[1] == DOT {
        let ghost o = comps_view(comps@);
        proof {
            assert(s@ =~= seq![DOT, DOT]);
        }
        comps.push(Component::ParentDir);
        proof {
            assert(comps_view(comps@) =~= o + seg_comp(s@));
        }
    } else {
        let ghost o = comps_view(comps@);
        let ghost sv = s@;
        proof {
            if n == 1 {
                assert(!(s@ =~= seq![DOT]));
            }
            assert(!(s@ =~= seq![DOT, DOT]));
        }
        comps.push(Component::Normal(s));
        proof {
            assert(comps_view(comps@) =~= o + seg_comp(sv));
        }
    }
}

impl ModPath {
    /// Reads a path from its bytes.
    pub fn parse(b: &[u8]) -> (p: Self)
        ensures
            p.view() == parse_path(b@),
    {
        let n = b.len();
        let root = n > 0 && b[0] == SLASH;
        let mut comps: Vec<Component> = Vec::new();
        if root {
            comps.push(Component::RootDir);
        } else if n > 0 && b[0] == DOT && (n == 1 || b[1] == SLASH) {
            comps.push(Component::CurDir);
        }
        let ghost head = comps_view(comps@);
        proof {
            assert(head =~= (if root {
                seq![Comp::Root]
            } else {
                Seq::empty()
            }) + (if !root && leading_cur(b@) {
                seq![Comp::Cur]
            } else {
                Seq::empty()
            }));
            assert(b@.take(0) =~= Seq::<u8>::empty());
        }
        let mut cur: Vec<u8> = Vec::new();
        let mut i: usize = 0;
        while i < n
            invariant
                n == b@.len(),
                i <= n,
                comps_view(comps@) == head + segs(b@.take(i as int)).0,
                cur@ == segs(b@.take(i as int)).1,
            decreases n - i,
        {
            proof {
                assert(b@.take(i + 1).drop_last() =~= b@.take(i as int));
            }
            if b[i] == SLASH {
                let seg = cur;
                cur = Vec::new();
                let ghost before = comps_view(comps@);
                seg_comp_exec(seg, &mut comps);
                proof {
                    assert(comps_view(comps@) =~= head + segs(b@.take(i + 1)).0);
                }
            } else {
                cur.push(b[i]);
            }
            i = i + 1;
        }
        proof {
            assert(b@.take(n as int) =~= b@);
        }
        seg_comp_exec(cur, &mut comps);
        proof {
            assert(comps_view(comps@) =~= parse_path(b@));
        }
        ModPath { comps }
    }
}

// joining, parents and normal forms

/// `dir.join(p)`: `p` where it has a root; else the components of both, where a
/// leading `.` of `p` stays only when `dir` is empty.
pub open spec fn join_path(dir: Seq<Comp>, p: Seq<Comp>) -> Seq<Comp> {
    if p.len() > 0 && p[0] is Root {
        p
    } else if dir.len() == 0 {
        p
    } else if p.len() > 0 && p[0] is Cur {
        dir + p.drop_first()
    } else {
        dir + p
    }
}

/// `Path::parent`: the path without its last component, unless that is a root or
/// there is none.
pub open spec fn parent_of(p: Seq<Comp>) -> Option<Seq<Comp>> {
    if p.len() == 0 || p.last() is Root {
        None
    } else {
        Some(p.drop_last())
    }
}

/// `PathBuf::pop`: drops the last component, unless that is a root or there is none.
pub open spec fn pop_comp(p: Seq<Comp>) -> Seq<Comp> {
    if p.len() == 0 || p.last() is Root {
        p
    } else {
        p.drop_last()
    }
}

/// The normal form of a path after its first `k` components, with the number of
/// components that a `..` may still take back.
pub open spec fn norm_prefix(p: Seq<Comp>, k: nat) -> (Seq<Comp>, nat)
    decreases k,
{
    if k == 0 {
        (Seq::empty(), 0)
    } else {
        let (normal, level) = norm_prefix(p, (k - 1) as nat);
        match p[k - 1] {
            Comp::Parent => if level != 0 {
                (pop_comp(normal), (level - 1) as nat)
            } else {
                (normal.push(Comp::Parent), level)
            },
            Comp::Cur => (normal, level),
            Comp::Root => (seq![Comp::Root], level + 1),
            Comp::Normal(s) => (normal.push(Comp::Normal(s)), level + 1),
        }
    }
}

/// The normal form of a path: `.` dropped, and each `..` taking back the
/// component before it where there is one to take.
pub open spec fn normpath(p: Seq<Comp>) -> Seq<Comp> {
    norm_prefix(p, p.len()).0
}

impl ModPath {
    pub fn join(&self, p: &ModPath) -> (r: ModPath)
        ensures
            r.view() == join_path(self.view(), p.view()),
    {
        let first_root = p.comps.len() > 0 && matches!(p.comps[0], Component::RootDir);
        if first_root || self.comps.len() == 0 {
            return p.copy();
        }
        let skip_cur = p.comps.len() > 0 && matches!(p.comps[0], Component::CurDir);
        let mut comps: Vec<Component> = Vec::new();
        let mut i: usize = 0;
        while i < self.comps.len()
            invariant
                i <= self.comps@.len(),
                comps_view(comps@) == comps_view(self.comps@).take(i as int),
            decreases self.comps@.len() - i,
        {
            let c = self.comps[i].copy();
            proof {
                lemma_comps_view_push(comps@, c);
            }
            comps.push(c);
            i = i + 1;
            proof {
                assert(comps_view(comps@) =~= comps_view(self.comps@).take(i as int));
            }
        }
        proof {
            assert(comps_view(self.comps@).take(i as int) =~= comps_view(self.comps@));
        }
        let start: usize = if skip_cur { 1 } else { 0 };
        let ghost base = comps_view(comps@);
        let mut j: usize = start;
        while j < p.comps.len()
            invariant
                start <= j <= p.comps@.len(),
                comps_view(comps@) == base + comps_view(p.comps@).subrange(start as int, j as int),
            decreases p.comps@.len() - j,
        {
            let c = p.comps[j].copy();
            proof {
                lemma_comps_view_push(comps@, c);
            }
            comps.push(c);
            j = j + 1;
            proof {
                assert(comps_view(comps@) =~= base + comps_view(p.comps@).subrange(
                    start as int,
                    j as int,
                ));
            }
        }
        proof {
            let pv = comps_view(p.comps@);
            if skip_cur {
                assert(pv.subrange(1, pv.len() as int) =~= pv.drop_first());
            } else {
                assert(pv.subrange(0, pv.len() as int) =~= pv);
            }
        }
        ModPath { comps }
    }

    /// The parent path, if any.
    pub fn parent(&self) -> (r: Option<ModPath>)
        ensures
            r matches Some(q) ==> parent_of(self.view()) == Some(q.view()),
            r is None ==> parent_of(self.view()) is None,
    {
        let n = self.comps.len();
        if n == 0 || matches!(self.comps[n - 1], Component::RootDir) {
            return None;
        }
        let mut comps: Vec<Component> = Vec::new();
        let mut i: usize = 0;
        while i < n - 1
            invariant
                n == self.comps@.len(),
                n > 0,
                i <= n - 1,
                comps_view(comps@) == comps_view(self.comps@).take(i as int),
            decreases n - 1 - i,
        {
            let c = self.comps[i].copy();
            proof {
                lemma_comps_view_push(comps@, c);
            }
            comps.push(c);
            i = i + 1;
            proof {
                assert(comps_view(comps@) =~= comps_view(self.comps@).take(i as int));
            }
        }
        proof {
            assert(comps_view(self.comps@).take(i as int) =~= comps_view(self.comps@).drop_last());
        }
        Some(ModPath { comps })
    }

    /// The normal form of the path.
    pub fn normalize(&self) -> (r: ModPath)
        ensures
            r.view() == normpath(self.view()),
    {
        let mut normal: Vec<Component> = Vec::new();
        let mut level: usize = 0;
        let mut i: usize = 0;
        while i < self.comps.len()
            invariant
                i <= self.comps@.len(),
                comps_view(normal@) == norm_prefix(self.view(), i as nat).0,
                level == norm_prefix(self.view(), i as nat).1,
                level <= i,
            decreases self.comps@.len() - i,
        {
            let ghost before = comps_view(normal@);
            match &self.comps[i] {
                Component::ParentDir => {
                    if level != 0 {
                        let n = normal.len();
                        if n > 0 && !matches!(normal[n - 1], Component::RootDir) {
                            normal.pop();
                            proof {
                                assert(comps_view(normal@) =~= before.drop_last());
                            }
                        }
                        level = level - 1;
                    } else {
                        normal.push(Component::ParentDir);
                        proof {
                            assert(comps_view(normal@) =~= before.push(Comp::Parent));
                        }
                    }
                },
                Component::CurDir => {},
                Component::RootDir => {
                    normal = Vec::new();
                    normal.push(Component::RootDir);
                    proof {
                        assert(comps_view(normal@) =~= seq![Comp::Root]);
                    }
                    level = level + 1;
                },
                Component::Normal(s) => {
                    normal.push(Component::Normal(s.clone()));
                    proof {
                        assert(comps_view(normal@) =~= before.push(self.view()[i as int]));
                    }
                    level = level + 1;
                },
            }
            i = i + 1;
        }
        proof {
            assert(i == self.view().len());
        }
        ModPath { comps: normal }
    }

    /// The bytes of the path as pushing its components builds them: the
    /// components separated by `/`, a root as a leading `/`.
    pub fn to_bytes(&self) -> (b: Vec<u8>)
        ensures
            b@ == render(self.view()),
    {
        let mut out: Vec<u8> = Vec::new();
        let mut i: usize = 0;
        proof {
            assert(self.view().take(0) =~= Seq::<Comp>::empty());
        }
        while i < self.comps.len()
            invariant
                i <= self.comps@.len(),
                out@ == render(self.view().take(i as int)),
            decreases self.comps@.len() - i,
        {
            proof {
                assert(self.view().take(i + 1).drop_last() =~= self.view().take(i as int));
            }
            let needs_sep = out.len() > 0 && out[out.len() - 1] != SLASH;
            match &self.comps[i] {
                Component::RootDir => {
                    out = Vec::new();
                    out.push(SLASH);
                },
                _ => {
                    if needs_sep {
                        out.push(SLASH);
                    }
                    let part = comp_bytes(&self.comps[i]);
                    let mut j: usize = 0;
                    let ghost start = out@;
                    while j < part.len()
                        invariant
                            j <= part@.len(),
                            out@ == start + part@.take(j as int),
                        decreases part@.len() - j,
                    {
                        out.push(part[j]);
                        j = j + 1;
                        proof {
                            assert(part@.take(j as int) =~= part@.take(j - 1).push(part@[j - 1]));
                        }
                    }
                    proof {
                        assert(part@.take(j as int) =~= part@);
                    }
                },
            }
            i = i + 1;
        }
        proof {
            assert(self.view().take(i as int) =~= self.view());
        }
        out
    }
}

/// The bytes of one component other than a root.
pub open spec fn comp_text(c: Comp) -> Seq<u8> {
    match c {
        Comp::Root => seq![SLASH],
        Comp::Cur => seq![DOT],
        Comp::Parent => seq![DOT, DOT],
        Comp::Normal(s) => s,
    }
}

/// The bytes that pushing the components one by one builds.
pub open spec fn render(p: Seq<Comp>) -> Seq<u8>
    decreases p.len(),
{
    if p.len() == 0 {
        Seq::empty()
    } else {
        let before = render(p.drop_last());
        match p.last() {
            Comp::Root => seq![SLASH],
            c => if before.len() > 0 && before.last() != SLASH {
                before + seq![SLASH] + comp_text(c)
            } else {
                before + comp_text(c)
            },
        }
    }
}

fn comp_bytes(c: &Component) -> (b: Vec<u8>)
    ensures
        b@ == comp_text(c.view()),
{
    match c {
        Component::RootDir => vec![SLASH],
        Component::CurDir => vec![DOT],
        Component::ParentDir => vec![DOT, DOT],
        Component::Normal(s) => s.clone(),
    }
}

/// `q` is `a` components `..` followed by normal components only.
pub open spec fn ups_then_normals(q: Seq<Comp>, a: int) -> bool {
    &&& 0 <= a <= q.len()
    &&& forall|i: int| 0 <= i < a ==> q[i] is Parent
    &&& forall|i: int| a <= i < q.len() ==> q[i] is Normal
}

proof fn lemma_norm_prefix_form(p: Seq<Comp>, k: nat)
    requires
        k <= p.len(),
        forall|i: int| 0 <= i < p.len() ==> !(p[i] is Root),
    ensures
        exists|a: int|
            ups_then_normals(norm_prefix(p, k).0, a) && norm_prefix(p, k).1 == norm_prefix(
                p,
                k,
            ).0.len() - a,
    decreases k,
{
    if k == 0 {
        assert(ups_then_normals(norm_prefix(p, k).0, 0));
    } else {
        lemma_norm_prefix_form(p, (k - 1) as nat);
        let (normal, level) = norm_prefix(p, (k - 1) as nat);
        let a = choose|a: int| ups_then_normals(normal, a) && level == normal.len() - a;
        assert(!(p[k - 1] is Root));
        let (n2, l2) = norm_prefix(p, k);
        match p[k - 1] {
            Comp::Parent => {
                if level != 0 {
                    assert(normal.last() is Normal);
                    assert(n2 == normal.drop_last());
                    assert(ups_then_normals(n2, a));
                    assert(l2 == n2.len() - a);
                } else {
                    assert(n2 == normal.push(Comp::Parent));
                    assert(ups_then_normals(n2, a + 1));
                    assert(l2 == n2.len() - (a + 1));
                }
            },
            Comp::Cur => {
                assert(ups_then_normals(n2, a));
            },
            Comp::Root => {},
            Comp::Normal(x) => {
                assert(n2 == normal.push(Comp::Normal(x)));
                assert(ups_then_normals(n2, a));
                assert(l2 == n2.len() - a);
            },
        }
    }
}

proof fn lemma_norm_prefix_of_form(q: Seq<Comp>, a: int, k: nat)
    requires
        ups_then_normals(q, a),
        k <= q.len(),
    ensures
        norm_prefix(q, k).0 == q.take(k as int),
        norm_prefix(q, k).1 == if k <= a { 0 } else { k - a },
    decreases k,
{
    if k > 0 {
        lemma_norm_prefix_of_form(q, a, (k - 1) as nat);
        assert(q.take(k - 1).push(q[k - 1]) =~= q.take(k as int));
    } else {
        assert(q.take(0) =~= Seq::<Comp>::empty());
    }
}

/// Normalizing a path without a root a second time changes nothing.
pub proof fn law_normpath_idempotent(p: Seq<Comp>)
    requires
        forall|i: int| 0 <= i < p.len() ==> !(p[i] is Root),
    ensures
        normpath(normpath(p)) == normpath(p),
{
    lemma_norm_prefix_form(p, p.len());
    let q = normpath(p);
    let a = choose|a: int| ups_then_normals(q, a) && norm_prefix(p, p.len()).1 == q.len() - a;
    lemma_norm_prefix_of_form(q, a, q.len());
    assert(q.take(q.len() as int) =~= q);
}

} // verus!
