use vstd::prelude::*;
use vstd::utf8::{
    encode_utf8, valid_utf8, is_char_boundary, encode_utf8_valid_utf8,
    is_char_boundary_start_end_of_seq,
};
use crate::wgsl_path::{Comp, ModPath, join_path, parent_of, normpath, parse_path};
use crate::wgsl_include::{
    Include, IncludeView, includes_view, parse_includes, parse_includes_exec, well_placed,
    lemma_includes_well_placed,
};
use crate::path_map::{
    PathIndex, PathSet, index_contents, index_new, index_get, index_insert, set_contents, set_new,
    set_insert, set_items,
};
use crate::naga_front::{lossy_text, path_text};
use crate::utf8_pieces::{
    lemma_ascii_next_boundary, lemma_ascii_boundary, lemma_piece_valid,
};

verus! {

broadcast use encode_utf8_valid_utf8;

/// Why loading a module failed.
#[derive(Debug)]
pub enum LoadError {
    /// The module at `path` is included again while it is being resolved; `from`
    /// is the module that is being resolved last.
    CircularDependency { path: ModPath, from: ModPath },
    /// There is no source for the module at `path`.
    FailedLoading { path: ModPath },
    /// The path has no parent directory.
    InvalidPath { path: ModPath },
}

/// The message of a load error.
pub open spec fn load_error_message(e: LoadError) -> Seq<char> {
    match e {
        LoadError::CircularDependency { path, from } => "circular dependency "@ + path_text(path@)
            + " from "@ + path_text(from@),
        LoadError::FailedLoading { path } => "failed loading module from path '"@ + path_text(
            path@,
        ) + "'"@,
        LoadError::InvalidPath { path } => "invalid path '"@ + path_text(path@) + "'"@,
    }
}

/// A load error as values.
pub enum LoadErrorView {
    CircularDependency { path: Seq<Comp>, from: Seq<Comp> },
    FailedLoading { path: Seq<Comp> },
    InvalidPath { path: Seq<Comp> },
}

impl LoadError {
    pub open spec fn view(&self) -> LoadErrorView {
        match self {
            LoadError::CircularDependency { path, from } => LoadErrorView::CircularDependency {
                path: path@,
                from: from@,
            },
            LoadError::FailedLoading { path } => LoadErrorView::FailedLoading { path: path@ },
            LoadError::InvalidPath { path } => LoadErrorView::InvalidPath { path: path@ },
        }
    }

    /// The message of the error.
    pub fn message(&self) -> (m: String)
        ensures
            m@ == load_error_message(*self),
    {
        let mut m = String::new();
        match self {
            LoadError::CircularDependency { path, from } => {
                let p = lossy_text(path.to_bytes().as_slice());
                let f = lossy_text(from.to_bytes().as_slice());
                m.append("circular dependency ");
                m.append(p.as_str());
                m.append(" from ");
                m.append(f.as_str());
            },
            LoadError::FailedLoading { path } => {
                let p = lossy_text(path.to_bytes().as_slice());
                m.append("failed loading module from path '");
                m.append(p.as_str());
                m.append("'");
            },
            LoadError::InvalidPath { path } => {
                let p = lossy_text(path.to_bytes().as_slice());
                m.append("invalid path '");
                m.append(p.as_str());
                m.append("'");
            },
        }
        proof {
            assert(m@ =~= load_error_message(*self));
        }
        m
    }
}

// sources

/// The sources that modules can be loaded from by path (what a file system
/// holds).
#[derive(Debug)]
pub struct SourceSet {
    entries: Vec<(ModPath, String)>,
}

/// The source under a path: the first entry with that path.
pub open spec fn lookup(e: Seq<(Seq<Comp>, Seq<char>)>, p: Seq<Comp>) -> Option<Seq<char>>
    decreases e.len(),
{
    if e.len() == 0 {
        None
    } else if e[0].0 == p {
        Some(e[0].1)
    } else {
        lookup(e.drop_first(), p)
    }
}

proof fn lemma_lookup_index(e: Seq<(Seq<Comp>, Seq<char>)>, p: Seq<Comp>, i: int)
    requires
        0 <= i < e.len(),
        e[i].0 == p,
        forall|j: int| 0 <= j < i ==> e[j].0 != p,
    ensures
        lookup(e, p) == Some(e[i].1),
    decreases i,
{
    if i > 0 {
        assert forall|j: int| 0 <= j < i - 1 implies e.drop_first()[j].0 != p by {
            assert(e.drop_first()[j] == e[j + 1]);
        }
        lemma_lookup_index(e.drop_first(), p, i - 1);
    }
}

proof fn lemma_lookup_none(e: Seq<(Seq<Comp>, Seq<char>)>, p: Seq<Comp>)
    requires
        forall|j: int| 0 <= j < e.len() ==> e[j].0 != p,
    ensures
        lookup(e, p) is None,
    decreases e.len(),
{
    if e.len() > 0 {
        assert forall|j: int| 0 <= j < e.len() - 1 implies e.drop_first()[j].0 != p by {
            assert(e.drop_first()[j] == e[j + 1]);
        }
        lemma_lookup_none(e.drop_first(), p);
    }
}

proof fn lemma_lookup_some(e: Seq<(Seq<Comp>, Seq<char>)>, p: Seq<Comp>)
    requires
        lookup(e, p) is Some,
    ensures
        exists|i: int| 0 <= i < e.len() && e[i].0 == p,
    decreases e.len(),
{
    if e.len() > 0 && e[0].0 != p {
        lemma_lookup_some(e.drop_first(), p);
        let i = choose|i: int| 0 <= i < e.drop_first().len() && e.drop_first()[i].0 == p;
        assert(e[i + 1] == e.drop_first()[i]);
    }
}

impl SourceSet {
    /// The entries as values.
    pub closed spec fn view(&self) -> Seq<(Seq<Comp>, Seq<char>)> {
        self.entries@.map_values(|e: (ModPath, String)| (e.0.view(), e.1@))
    }

    /// The source under `p`, if any.
    pub open spec fn source_of(&self, p: Seq<Comp>) -> Option<Seq<char>> {
        lookup(self.view(), p)
    }

    /// The number of entries.
    pub closed spec fn size(&self) -> nat {
        self.entries@.len()
    }

    pub fn new() -> (s: Self)
        ensures
            forall|p: Seq<Comp>| s.source_of(p) is None,
            s.size() == 0,
    {
        let s = SourceSet { entries: Vec::new() };
        proof {
            assert forall|p: Seq<Comp>| s.source_of(p) is None by {
                assert(s.view().len() == 0);
            }
        }
        s
    }

    pub fn len(&self) -> (n: usize)
        ensures
            n == self.size(),
    {
        self.entries.len()
    }

    /// Adds a source under the path with bytes `path`, in front of any that was
    /// there.
    pub fn add(&mut self, path: &str, source: &str)
        ensures
            final(self).source_of(parse_path(encode_utf8(path@))) == Some(source@),
            final(self).size() == old(self).size() + 1,
            forall|q: Seq<Comp>|
                q != parse_path(encode_utf8(path@)) ==> final(self).source_of(q) == old(
                    self,
                ).source_of(q),
    {
        let p = ModPath::parse(path.as_bytes());
        let ghost old_view = self.view();
        self.entries.insert(0, (p, source.to_owned()));
        proof {
            let nv = self.view();
            assert(nv.drop_first() =~= old_view);
            assert(nv[0] == (parse_path(encode_utf8(path@)), source@));
        }
    }

    /// The source under `p`, if any.
    fn get(&self, p: &ModPath) -> (r: Option<&String>)
        ensures
            r matches Some(s) ==> self.source_of(p.view()) == Some(s@),
            r is None ==> self.source_of(p.view()) is None,
    {
        let mut i: usize = 0;
        while i < self.entries.len()
            invariant
                i <= self.entries@.len(),
                forall|j: int| 0 <= j < i ==> self.view()[j].0 != p.view(),
            decreases self.entries@.len() - i,
        {
            if self.entries[i].0.same(p) {
                proof {
                    assert(self.view()[i as int] == (self.entries@[i as int].0.view(), self.entries@[i as int].1@));
                    lemma_lookup_index(self.view(), p.view(), i as int);
                }
                return Some(&self.entries[i].1);
            }
            proof {
                assert(self.view()[i as int].0 == self.entries@[i as int].0.view());
            }
            i = i + 1;
        }
        proof {
            lemma_lookup_none(self.view(), p.view());
        }
        None
    }
}

// modules

/// A module as values: its path, its include directives, the paths it depends on,
/// its source and its code (the source with each directive replaced by the code of
/// the module it names), and its depth: a resolved module is deeper than each
/// module it includes, so that no chain of includes comes back to where it began.
pub struct ModuleView {
    pub path: Seq<Comp>,
    pub includes: Seq<IncludeView>,
    pub deps: Set<Seq<Comp>>,
    pub source: Seq<char>,
    pub code: Seq<char>,
    pub depth: nat,
}

/// The normal path of the module that a directive names, seen from the directory
/// `dir` of the including module.
pub open spec fn target(dir: Seq<Comp>, inc: IncludeView) -> Seq<Comp> {
    normpath(join_path(dir, inc.path))
}

/// The bytes `b` from `pos` on, with the directives from the `k`-th on each
/// replaced by its code.
pub open spec fn splice_from(
    b: Seq<u8>,
    incs: Seq<IncludeView>,
    codes: Seq<Seq<u8>>,
    k: int,
    pos: int,
) -> Seq<u8>
    decreases incs.len() - k,
{
    if k < 0 || k >= incs.len() {
        b.subrange(pos, b.len() as int)
    } else {
        b.subrange(pos, incs[k].start) + codes[k] + splice_from(
            b,
            incs,
            codes,
            k + 1,
            incs[k].end,
        )
    }
}

/// The bytes `b` with each directive replaced by its code.
pub open spec fn splice(b: Seq<u8>, incs: Seq<IncludeView>, codes: Seq<Seq<u8>>) -> Seq<u8> {
    splice_from(b, incs, codes, 0, 0)
}

/// The code bytes of the modules that the directives name, in the cache `c`.
pub open spec fn included_codes(
    c: Map<Seq<Comp>, ModuleView>,
    dir: Seq<Comp>,
    incs: Seq<IncludeView>,
) -> Seq<Seq<u8>> {
    Seq::new(incs.len(), |k: int| encode_utf8(c[target(dir, incs[k])].code))
}

/// `p` is a dependency that including the module at `t` brings: `t` itself, or one
/// of the dependencies of that module, seen from the directory of `t`.
pub open spec fn brings(c: Map<Seq<Comp>, ModuleView>, t: Seq<Comp>, p: Seq<Comp>) -> bool {
    ||| p == t
    ||| exists|d: Seq<Comp>|
        c[t].deps.contains(d) && p == normpath(join_path(parent_of(t)->0, d))
}

/// The dependencies that the directives from the `lo`-th to before the `hi`-th
/// bring.
pub open spec fn deps_between(
    c: Map<Seq<Comp>, ModuleView>,
    dir: Seq<Comp>,
    incs: Seq<IncludeView>,
    lo: int,
    hi: int,
) -> Set<Seq<Comp>> {
    Set::new(|p: Seq<Comp>| exists|k: int| lo <= k < hi && #[trigger] brings(c, target(dir, incs[k]), p))
}

/// A module is resolved in the cache `c`: its directives are those of its source,
/// its path has a directory, each module it includes is in `c` (under a path with
/// a directory), its code is its source with each directive replaced by the code
/// of that module, and its dependencies are those that its directives bring.
pub open spec fn resolved_in(m: ModuleView, c: Map<Seq<Comp>, ModuleView>) -> bool {
    let dir = parent_of(m.path)->0;
    &&& m.includes == parse_includes(encode_utf8(m.source))
    &&& parent_of(m.path) is Some
    &&& forall|k: int|
        0 <= k < m.includes.len() ==> {
            &&& parent_of(#[trigger] target(dir, m.includes[k])) is Some
            &&& c.contains_key(target(dir, m.includes[k]))
            &&& c[target(dir, m.includes[k])].depth < m.depth
        }
    &&& encode_utf8(m.code) == splice(
        encode_utf8(m.source),
        m.includes,
        included_codes(c, dir, m.includes),
    )
    &&& m.deps == deps_between(c, dir, m.includes, 0, m.includes.len() as int)
}

/// `c1` keeps every module of `c0` under its path.
pub open spec fn extends(c1: Map<Seq<Comp>, ModuleView>, c0: Map<Seq<Comp>, ModuleView>) -> bool {
    forall|k: Seq<Comp>| #[trigger] c0.contains_key(k) ==> c1.contains_key(k) && c1[k] == c0[k]
}

/// Each module that `c1` holds and `c0` does not was loaded from `sources` under
/// its own path and is resolved in `c1`.
pub open spec fn fresh_resolved(
    c1: Map<Seq<Comp>, ModuleView>,
    c0: Map<Seq<Comp>, ModuleView>,
    sources: Seq<(Seq<Comp>, Seq<char>)>,
) -> bool {
    forall|k: Seq<Comp>|
        #[trigger] c1.contains_key(k) && !c0.contains_key(k) ==> {
            &&& c1[k].path == k
            &&& lookup(sources, k) == Some(c1[k].source)
            &&& resolved_in(c1[k], c1)
        }
}

/// Every module of `c` was loaded from `sources` under its own path and is
/// resolved in `c`.
pub open spec fn loaded_from(c: Map<Seq<Comp>, ModuleView>, sources: Seq<(Seq<Comp>, Seq<char>)>) -> bool {
    forall|k: Seq<Comp>|
        #[trigger] c.contains_key(k) ==> {
            &&& c[k].path == k
            &&& lookup(sources, k) == Some(c[k].source)
            &&& resolved_in(c[k], c)
        }
}

/// The module at `a` with source `s` has a directive that names `b`.
pub open spec fn names(a: Seq<Comp>, s: Seq<char>, b: Seq<Comp>) -> bool {
    &&& parent_of(a) is Some
    &&& exists|k: int|
        0 <= k < parse_includes(encode_utf8(s)).len() && b == #[trigger] target(
            parent_of(a)->0,
            parse_includes(encode_utf8(s))[k],
        )
}

/// The source under `a` has a directive that names `b`.
pub open spec fn links(sources: Seq<(Seq<Comp>, Seq<char>)>, a: Seq<Comp>, b: Seq<Comp>) -> bool {
    &&& lookup(sources, a) is Some
    &&& names(a, lookup(sources, a)->0, b)
}

/// Each path of `t` names a directive of the source under the path before it.
pub open spec fn is_chain(sources: Seq<(Seq<Comp>, Seq<char>)>, t: Seq<Seq<Comp>>) -> bool {
    forall|i: int| 0 <= i < t.len() - 1 ==> #[trigger] links(sources, t[i], t[i + 1])
}

/// `t` is a chain of directives that starts at one of the root module (at `rp`,
/// with source `rs`) and passes through no path of `cached` (whose modules are
/// taken as they are, their directives not followed).
pub open spec fn trace_from(
    sources: Seq<(Seq<Comp>, Seq<char>)>,
    cached: Set<Seq<Comp>>,
    rp: Seq<Comp>,
    rs: Seq<char>,
    t: Seq<Seq<Comp>>,
) -> bool {
    &&& is_chain(sources, t)
    &&& t.len() > 0 ==> names(rp, rs, t[0])
    &&& forall|i: int| 0 <= i < t.len() ==> !cached.contains(#[trigger] t[i])
}

/// A directive of the root module (where `t` is empty) or of the module at the end
/// of the chain `t` from the root names `p`.
pub open spec fn named_from(
    sources: Seq<(Seq<Comp>, Seq<char>)>,
    cached: Set<Seq<Comp>>,
    rp: Seq<Comp>,
    rs: Seq<char>,
    t: Seq<Seq<Comp>>,
    p: Seq<Comp>,
) -> bool {
    &&& trace_from(sources, cached, rp, rs, t)
    &&& if t.len() == 0 {
        names(rp, rs, p)
    } else {
        links(sources, t.last(), p)
    }
}

/// What a failed load of the root module (at `rp`, with source `rs`), with the
/// modules at the paths of `cached` at hand, answers is so: a path outside
/// `cached` reached from the root by directives has no source; or the root's path
/// or a path reached from it has no directory; or a chain of directives from the
/// root comes back to it.
pub open spec fn error_sound(
    e: LoadError,
    sources: Seq<(Seq<Comp>, Seq<char>)>,
    cached: Set<Seq<Comp>>,
    rp: Seq<Comp>,
    rs: Seq<char>,
) -> bool {
    match e {
        LoadError::FailedLoading { path } => lookup(sources, path@) is None && !cached.contains(
            path@,
        ) && exists|t: Seq<Seq<Comp>>| named_from(sources, cached, rp, rs, t, path@),
        LoadError::InvalidPath { path } => parent_of(path@) is None && (path@ == rp || exists|
            t: Seq<Seq<Comp>>,
        | named_from(sources, cached, rp, rs, t, path@)),
        LoadError::CircularDependency { path, from } => exists|t: Seq<Seq<Comp>>|
            #![trigger named_from(sources, cached, rp, rs, t, path@)]
            named_from(sources, cached, rp, rs, t, path@) && t.contains(path@) && t.last()
                == from@,
    }
}

/// A module: its path, its include directives, the paths it depends on, its source
/// and its code.
pub struct Module {
    path: ModPath,
    includes: Vec<Include>,
    dependencies: PathSet,
    source: String,
    code: String,
    depth: Ghost<nat>,
}

impl Module {
    pub closed spec fn view(&self) -> ModuleView {
        ModuleView {
            path: self.path@,
            includes: includes_view(self.includes@),
            deps: set_contents(self.dependencies),
            source: self.source@,
            code: self.code@,
            depth: self.depth@,
        }
    }

    /// The module at `path` with `source`, its directives found and not yet
    /// resolved.
    fn parse(path: ModPath, source: String) -> (m: Module)
        ensures
            m@.path == path@,
            m@.source == source@,
            m@.includes == parse_includes(encode_utf8(source@)),
            m@.deps.is_empty(),
    {
        let includes = parse_includes_exec(source.as_str().as_bytes());
        Module {
            path,
            includes,
            dependencies: set_new(),
            source,
            code: String::new(),
            depth: Ghost(0),
        }
    }

    pub fn path(&self) -> (r: &ModPath)
        ensures
            r@ == self@.path,
    {
        &self.path
    }

    pub fn includes(&self) -> (r: &[Include])
        ensures
            includes_view(r@) == self@.includes,
    {
        self.includes.as_slice()
    }

    /// The paths the module depends on, each once, in no order that is promised.
    pub fn dependencies(&self) -> (r: Vec<ModPath>)
        ensures
            forall|i: int| 0 <= i < r@.len() ==> self@.deps.contains(#[trigger] r@[i]@),
            forall|p: Seq<Comp>|
                self@.deps.contains(p) ==> exists|i: int| 0 <= i < r@.len() && #[trigger] r@[i]@ == p,
            forall|i: int, j: int| 0 <= i < j < r@.len() ==> #[trigger] r@[i]@ != #[trigger] r@[j]@,
    {
        set_items(&self.dependencies)
    }

    pub fn source(&self) -> (r: &str)
        ensures
            r@ == self@.source,
    {
        self.source.as_str()
    }

    pub fn code(&self) -> (r: &str)
        ensures
            r@ == self@.code,
    {
        self.code.as_str()
    }
}

/// `String::from_utf8`: the string whose UTF-8 encoding is `v`, which is valid
/// UTF-8 (where the call returns `Ok`).
#[verifier::external_body]
fn string_from_utf8(v: Vec<u8>) -> (s: String)
    requires
        valid_utf8(v@),
    ensures
        encode_utf8(s@) == v@,
{
    String::from_utf8(v).unwrap()
}

/// Splicing valid UTF-8 pieces at directive bounds gives valid UTF-8.
proof fn lemma_splice_valid(b: Seq<u8>, incs: Seq<IncludeView>, codes: Seq<Seq<u8>>, k: int, pos: int)
    requires
        valid_utf8(b),
        well_placed(b, incs, 0),
        0 <= k <= incs.len(),
        codes.len() == incs.len(),
        forall|j: int| 0 <= j < codes.len() ==> valid_utf8(#[trigger] codes[j]),
        0 <= pos <= b.len(),
        is_char_boundary(b, pos),
        k < incs.len() ==> pos <= incs[k].start,
    ensures
        valid_utf8(splice_from(b, incs, codes, k, pos)),
    decreases incs.len() - k,
{
    if k < incs.len() {
        let s = incs[k].start;
        let e = incs[k].end;
        assert(0 <= s < e <= b.len());
        assert(b[s] < 0x80 && b[e - 1] < 0x80);
        lemma_ascii_boundary(b, s);
        lemma_ascii_boundary(b, e - 1);
        lemma_ascii_next_boundary(b, e - 1);
        lemma_piece_valid(b, pos, s);
        if k + 1 < incs.len() {
            assert(incs[k].end <= incs[k + 1].start);
        }
        lemma_splice_valid(b, incs, codes, k + 1, e);
        vstd::utf8::valid_utf8_concat(b.subrange(pos, s), codes[k]);
        vstd::utf8::valid_utf8_concat(b.subrange(pos, s) + codes[k], splice_from(b, incs, codes, k + 1, e));
    } else {
        is_char_boundary_start_end_of_seq(b);
        lemma_piece_valid(b, pos, b.len() as int);
    }
}

/// The byte strings of `v`.
pub open spec fn bytes_view(v: Seq<Vec<u8>>) -> Seq<Seq<u8>> {
    v.map_values(|x: Vec<u8>| x@)
}

/// Appends `src[lo..hi]` to `out`.
fn push_range(out: &mut Vec<u8>, src: &[u8], lo: usize, hi: usize)
    requires
        lo <= hi <= src@.len(),
    ensures
        final(out)@ == old(out)@ + src@.subrange(lo as int, hi as int),
{
    let mut i = lo;
    while i < hi
        invariant
            lo <= i <= hi,
            hi <= src@.len(),
            out@ == old(out)@ + src@.subrange(lo as int, i as int),
        decreases hi - i,
    {
        out.push(src[i]);
        i = i + 1;
        proof {
            assert(out@ =~= old(out)@ + src@.subrange(lo as int, i as int));
        }
    }
}

/// The bytes `b` with each directive replaced by the code at its position in
/// `codes`.
fn splice_exec(b: &[u8], incs: &Vec<Include>, codes: &Vec<Vec<u8>>) -> (out: Vec<u8>)
    requires
        well_placed(b@, includes_view(incs@), 0),
        codes@.len() == incs@.len(),
    ensures
        out@ == splice(b@, includes_view(incs@), bytes_view(codes@)),
{
    let ghost iv = includes_view(incs@);
    let ghost cv = bytes_view(codes@);
    let n = incs.len();
    let mut out: Vec<u8> = Vec::new();
    let mut pos: usize = 0;
    let mut k: usize = 0;
    proof {
        assert(out@ + splice_from(b@, iv, cv, 0, 0) =~= splice(b@, iv, cv));
    }
    while k < n
        invariant
            n == incs@.len(),
            n == codes@.len(),
            iv == includes_view(incs@),
            cv == bytes_view(codes@),
            well_placed(b@, iv, 0),
            k <= n,
            pos <= b@.len(),
            k < n ==> pos <= iv[k as int].start,
            out@ + splice_from(b@, iv, cv, k as int, pos as int) == splice(b@, iv, cv),
        decreases n - k,
    {
        let s = incs[k].source_range.start;
        let e = incs[k].source_range.end;
        proof {
            assert(iv[k as int] == incs@[k as int].view());
            assert(0 <= iv[k as int].start < iv[k as int].end <= b@.len());
            if k + 1 < n {
                assert(iv[k as int].end <= iv[k + 1].start);
            }
        }
        let ghost before = out@;
        push_range(&mut out, b, pos, s);
        let code = &codes[k];
        let mut j: usize = 0;
        while j < code.len()
            invariant
                j <= code@.len(),
                out@ == before + b@.subrange(pos as int, s as int) + code@.subrange(0, j as int),
            decreases code@.len() - j,
        {
            out.push(code[j]);
            j = j + 1;
            proof {
                assert(out@ =~= before + b@.subrange(pos as int, s as int) + code@.subrange(
                    0,
                    j as int,
                ));
            }
        }
        proof {
            assert(code@.subrange(0, j as int) =~= code@);
            assert(cv[k as int] == code@);
            assert(splice_from(b@, iv, cv, k as int, pos as int) == b@.subrange(pos as int, s as int)
                + cv[k as int] + splice_from(b@, iv, cv, k + 1, e as int));
            assert(out@ + splice_from(b@, iv, cv, k + 1, e as int) =~= before + splice_from(
                b@,
                iv,
                cv,
                k as int,
                pos as int,
            ));
        }
        pos = e;
        k = k + 1;
    }
    let ghost before = out@;
    push_range(&mut out, b, pos, b.len());
    proof {
        assert(out@ =~= before + splice_from(b@, iv, cv, k as int, pos as int));
    }
    out
}

// the cache

/// Modules by path.
pub struct ModuleCache {
    index: PathIndex,
    entries: Vec<(ModPath, Module)>,
}

impl ModuleCache {
    /// The index names the position of each entry under its path.
    pub closed spec fn wf(&self) -> bool {
        let m = index_contents(self.index);
        &&& forall|k: Seq<Comp>|
            #[trigger] m.contains_key(k) ==> m[k] < self.entries@.len() && self.entries@[m[k] as int].0@
                == k
        &&& forall|i: int|
            0 <= i < self.entries@.len() ==> m.contains_key(#[trigger] self.entries@[i].0@) && m[self.entries@[i].0@] == i
    }

    /// The modules by path.
    pub closed spec fn view(&self) -> Map<Seq<Comp>, ModuleView> {
        Map::new(
            |k: Seq<Comp>| index_contents(self.index).contains_key(k),
            |k: Seq<Comp>| self.entries@[index_contents(self.index)[k] as int].1@,
        )
    }

    pub fn new() -> (c: Self)
        ensures
            c.wf(),
            c@ == Map::<Seq<Comp>, ModuleView>::empty(),
    {
        let c = ModuleCache { index: index_new(), entries: Vec::new() };
        proof {
            assert(c@ =~= Map::<Seq<Comp>, ModuleView>::empty());
        }
        c
    }

    /// Puts `module` under `key`, replacing the module that was there, and gives
    /// its position.
    fn insert_and_get(&mut self, key: ModPath, module: Module) -> (i: usize)
        requires
            old(self).wf(),
        ensures
            final(self).wf(),
            final(self)@ == old(self)@.insert(key@, module@),
            i < final(self).entries@.len(),
            final(self).entries@[i as int].0@ == key@,
    {
        let ghost m0 = index_contents(self.index);
        match index_get(&self.index, &key) {
            Some(i) => {
                let ghost k = self.entries@[i as int].0;
                self.entries.set(i, (key, module));
                proof {
                    let m = index_contents(self.index);
                    assert forall|j: int| 0 <= j < self.entries@.len() implies m.contains_key(
                        #[trigger] self.entries@[j].0@,
                    ) && m[self.entries@[j].0@] == j by {
                        if j != i {
                            assert(self.entries@[j] == old(self).entries@[j]);
                        }
                    }
                    assert(self@ =~= old(self)@.insert(key@, module@));
                }
                i
            },
            None => {
                let i = self.entries.len();
                let kc = key.copy();
                self.entries.push((kc, module));
                index_insert(&mut self.index, key, i);
                proof {
                    let m = index_contents(self.index);
                    assert forall|k: Seq<Comp>| #[trigger] m.contains_key(k) implies m[k]
                        < self.entries@.len() && self.entries@[m[k] as int].0@ == k by {
                        if k != kc@ {
                            assert(m0.contains_key(k));
                            assert(self.entries@[m0[k] as int] == old(self).entries@[m0[k] as int]);
                        }
                    }
                    assert forall|j: int| 0 <= j < self.entries@.len() implies m.contains_key(
                        #[trigger] self.entries@[j].0@,
                    ) && m[self.entries@[j].0@] == j by {
                        if j < i {
                            assert(self.entries@[j] == old(self).entries@[j]);
                            assert(m0.contains_key(old(self).entries@[j].0@));
                        }
                    }
                    assert forall|k: Seq<Comp>| #[trigger] self@.contains_key(k) == old(self)@.insert(key@, module@).contains_key(k) by {}
                    assert forall|k: Seq<Comp>| #[trigger] self@.contains_key(k) implies self@[k] == old(self)@.insert(key@, module@)[k] by {
                        if k != kc@ {
                            assert(self.entries@[m0[k] as int] == old(self).entries@[m0[k] as int]);
                        }
                    }
                    assert(self@ =~= old(self)@.insert(key@, module@));
                }
                i
            },
        }
    }
}

// resolution

/// The paths of `v`.
pub open spec fn paths_view(v: Seq<ModPath>) -> Seq<Seq<Comp>> {
    v.map_values(|p: ModPath| p@)
}

/// No path occurs twice in `t`, and each has a source.
pub open spec fn bounded(sources: Seq<(Seq<Comp>, Seq<char>)>, t: Seq<Seq<Comp>>) -> bool {
    &&& t.no_duplicates()
    &&& forall|i: int| 0 <= i < t.len() ==> #[trigger] lookup(sources, t[i]) is Some
}

/// The paths of modules being resolved form a chain of directives over
/// `sources`, each once and each with a source.
pub open spec fn trace_ok(sources: Seq<(Seq<Comp>, Seq<char>)>, t: Seq<Seq<Comp>>) -> bool {
    &&& is_chain(sources, t)
    &&& bounded(sources, t)
}

/// A trace can hold no more paths than there are sources.
proof fn lemma_trace_len(sources: Seq<(Seq<Comp>, Seq<char>)>, t: Seq<Seq<Comp>>)
    requires
        t.no_duplicates(),
        forall|i: int| 0 <= i < t.len() ==> #[trigger] lookup(sources, t[i]) is Some,
    ensures
        t.len() <= sources.len(),
{
    let keys = sources.map_values(|e: (Seq<Comp>, Seq<char>)| e.0);
    assert forall|x: Seq<Comp>| t.to_set().contains(x) implies keys.to_set().contains(x) by {
        let i = choose|i: int| 0 <= i < t.len() && t[i] == x;
        assert(lookup(sources, t[i]) is Some);
        lemma_lookup_some(sources, x);
        let j = choose|j: int| 0 <= j < sources.len() && sources[j].0 == x;
        assert(keys[j] == x);
    }
    t.unique_seq_to_set();
    keys.lemma_cardinality_of_set();
    vstd::seq_lib::seq_to_set_is_finite(keys);
    vstd::set_lib::lemma_len_subset(t.to_set(), keys.to_set());
}

/// A path with a source that is not yet on a bounded trace extends it, and the
/// trace is then shorter than the sources.
pub proof fn lemma_push_bounded(sources: Seq<(Seq<Comp>, Seq<char>)>, t: Seq<Seq<Comp>>, p: Seq<Comp>)
    requires
        bounded(sources, t),
        !t.contains(p),
        lookup(sources, p) is Some,
    ensures
        bounded(sources, t.push(p)),
        t.len() < sources.len(),
{
    let u = t.push(p);
    assert forall|i: int| 0 <= i < u.len() implies #[trigger] lookup(sources, u[i]) is Some by {
        if i < t.len() {
            assert(u[i] == t[i]);
            assert(lookup(sources, t[i]) is Some);
        }
    }
    assert forall|i: int, j: int| 0 <= i < u.len() && 0 <= j < u.len() && i != j implies u[i]
        != u[j] by {
        if i < t.len() && j < t.len() {
            assert(u[i] == t[i] && u[j] == t[j]);
        } else if i < t.len() {
            assert(u[i] == t[i]);
        } else if j < t.len() {
            assert(u[j] == t[j]);
        }
    }
    lemma_trace_len(sources, u);
}

/// What resolving the module at `p` comes to, with the paths of `cached` in the
/// cache and those of `trace` being resolved: a path on the trace closes a cycle
/// with the last one; a cached path is taken as it is; a path without a source
/// fails; else its module is resolved on the trace extended by its path, which
/// then joins the cache. Success gives the paths in the cache afterwards.
pub open spec fn walk_module(
    sources: Seq<(Seq<Comp>, Seq<char>)>,
    cached: Set<Seq<Comp>>,
    trace: Seq<Seq<Comp>>,
    p: Seq<Comp>,
) -> Result<Set<Seq<Comp>>, LoadErrorView>
    decreases sources.len() - trace.len(), 0int, 0int,
    when bounded(sources, trace)
{
    if trace.contains(p) {
        Err(LoadErrorView::CircularDependency { path: p, from: trace.last() })
    } else if cached.contains(p) {
        Ok(cached)
    } else {
        match lookup(sources, p) {
            None => Err(LoadErrorView::FailedLoading { path: p }),
            Some(s) => {
                proof {
                    lemma_push_bounded(sources, trace, p);
                }
                match walk_own(sources, cached, trace.push(p), p, s) {
                    Ok(c) => Ok(c.insert(p)),
                    Err(e) => Err(e),
                }
            },
        }
    }
}

/// What resolving the directives of the module at `path` with `source` comes to:
/// a path without a directory fails; else its directives are resolved from the
/// last to the first.
pub open spec fn walk_own(
    sources: Seq<(Seq<Comp>, Seq<char>)>,
    cached: Set<Seq<Comp>>,
    trace: Seq<Seq<Comp>>,
    path: Seq<Comp>,
    source: Seq<char>,
) -> Result<Set<Seq<Comp>>, LoadErrorView>
    decreases sources.len() - trace.len(), 2int, 0int,
    when bounded(sources, trace)
{
    match parent_of(path) {
        None => Err(LoadErrorView::InvalidPath { path }),
        Some(dir) => walk_includes(
            sources,
            cached,
            trace,
            dir,
            parse_includes(encode_utf8(source)),
            parse_includes(encode_utf8(source)).len() as int,
        ),
    }
}

/// What resolving the directives before the `k`-th, from the last to the first,
/// of a module in the directory `dir` comes to: for each, a named path without a
/// directory fails, else its module is resolved; the first failure ends it.
pub open spec fn walk_includes(
    sources: Seq<(Seq<Comp>, Seq<char>)>,
    cached: Set<Seq<Comp>>,
    trace: Seq<Seq<Comp>>,
    dir: Seq<Comp>,
    incs: Seq<IncludeView>,
    k: int,
) -> Result<Set<Seq<Comp>>, LoadErrorView>
    decreases sources.len() - trace.len(), 1int, k,
    when bounded(sources, trace)
{
    if k <= 0 {
        Ok(cached)
    } else {
        let q = target(dir, incs[k - 1]);
        if parent_of(q) is None {
            Err(LoadErrorView::InvalidPath { path: q })
        } else {
            match walk_module(sources, cached, trace, q) {
                Ok(c) => walk_includes(sources, c, trace, dir, incs, k - 1),
                Err(e) => Err(e),
            }
        }
    }
}

/// An answer as values, with `d` the paths in the cache afterwards.
pub open spec fn outcome<T>(r: Result<T, LoadError>, d: Set<Seq<Comp>>) -> Result<
    Set<Seq<Comp>>,
    LoadErrorView,
> {
    match r {
        Ok(_) => Ok(d),
        Err(e) => Err(e@),
    }
}

/// What the directives bring does not change where the modules they name stay.
proof fn lemma_deps_between_extends(
    c0: Map<Seq<Comp>, ModuleView>,
    c1: Map<Seq<Comp>, ModuleView>,
    dir: Seq<Comp>,
    incs: Seq<IncludeView>,
    lo: int,
    hi: int,
)
    requires
        extends(c1, c0),
        forall|k: int| lo <= k < hi ==> c0.contains_key(#[trigger] target(dir, incs[k])),
    ensures
        deps_between(c1, dir, incs, lo, hi) == deps_between(c0, dir, incs, lo, hi),
{
    assert forall|p: Seq<Comp>| deps_between(c1, dir, incs, lo, hi).contains(p) == deps_between(
        c0,
        dir,
        incs,
        lo,
        hi,
    ).contains(p) by {
        if deps_between(c1, dir, incs, lo, hi).contains(p) {
            let k = choose|k: int| lo <= k < hi && #[trigger] brings(c1, target(dir, incs[k]), p);
            assert(c0.contains_key(target(dir, incs[k])));
            assert(brings(c0, target(dir, incs[k]), p));
        }
        if deps_between(c0, dir, incs, lo, hi).contains(p) {
            let k = choose|k: int| lo <= k < hi && #[trigger] brings(c0, target(dir, incs[k]), p);
            assert(c0.contains_key(target(dir, incs[k])));
            assert(brings(c1, target(dir, incs[k]), p));
        }
    }
    assert(deps_between(c1, dir, incs, lo, hi) =~= deps_between(c0, dir, incs, lo, hi));
}

/// A module resolved in a cache stays resolved where the cache keeps its modules.
proof fn lemma_resolved_extends(m: ModuleView, c0: Map<Seq<Comp>, ModuleView>, c1: Map<Seq<Comp>, ModuleView>)
    requires
        resolved_in(m, c0),
        extends(c1, c0),
    ensures
        resolved_in(m, c1),
{
    let dir = parent_of(m.path)->0;
    let n = m.includes.len() as int;
    assert forall|k: int| 0 <= k < n implies c0.contains_key(#[trigger] target(dir, m.includes[k])) by {}
    assert(included_codes(c1, dir, m.includes) =~= included_codes(c0, dir, m.includes)) by {
        assert forall|k: int| 0 <= k < n implies included_codes(c1, dir, m.includes)[k]
            == included_codes(c0, dir, m.includes)[k] by {
            assert(c0.contains_key(target(dir, m.includes[k])));
        }
    }
    lemma_deps_between_extends(c0, c1, dir, m.includes, 0, n);
}

/// Modules that came in over two steps came in over both.
proof fn lemma_fresh_trans(
    c0: Map<Seq<Comp>, ModuleView>,
    c1: Map<Seq<Comp>, ModuleView>,
    c2: Map<Seq<Comp>, ModuleView>,
    sources: Seq<(Seq<Comp>, Seq<char>)>,
)
    requires
        extends(c1, c0),
        extends(c2, c1),
        fresh_resolved(c1, c0, sources),
        fresh_resolved(c2, c1, sources),
    ensures
        extends(c2, c0),
        fresh_resolved(c2, c0, sources),
{
    assert forall|k: Seq<Comp>| #[trigger] c2.contains_key(k) && !c0.contains_key(k) implies {
        &&& c2[k].path == k
        &&& lookup(sources, k) == Some(c2[k].source)
        &&& resolved_in(c2[k], c2)
    } by {
        if c1.contains_key(k) {
            lemma_resolved_extends(c1[k], c1, c2);
        }
    }
}

/// A cycle found on a chain from the root is a sound answer.
proof fn lemma_circular_sound(
    sources: Seq<(Seq<Comp>, Seq<char>)>,
    cached: Set<Seq<Comp>>,
    rp: Seq<Comp>,
    rs: Seq<char>,
    t: Seq<Seq<Comp>>,
    path: ModPath,
    from: ModPath,
)
    requires
        named_from(sources, cached, rp, rs, t, path@),
        t.contains(path@),
        t.last() == from@,
    ensures
        error_sound(LoadError::CircularDependency { path, from }, sources, cached, rp, rs),
{
    let e = LoadError::CircularDependency { path, from };
    assert(named_from(sources, cached, rp, rs, t, e->CircularDependency_path@));
    assert(t.contains(e->CircularDependency_path@));
    assert(t.last() == e->from@);
    assert(exists|u: Seq<Seq<Comp>>|
        #![trigger named_from(sources, cached, rp, rs, u, e->CircularDependency_path@)]
        named_from(sources, cached, rp, rs, u, e->CircularDependency_path@) && u.contains(
            e->CircularDependency_path@,
        ) && u.last() == e->from@);
}

/// The directory of a path; a path without one is refused.
fn parent_path(path: &ModPath) -> (r: Result<ModPath, LoadError>)
    ensures
        r matches Ok(d) ==> parent_of(path@) == Some(d@),
        r matches Err(e) ==> parent_of(path@) is None && (e matches LoadError::InvalidPath {
            path: q,
        } && q@ == path@),
        r is Ok == parent_of(path@) is Some,
{
    match path.parent() {
        Some(d) => Ok(d),
        None => Err(LoadError::InvalidPath { path: path.copy() }),
    }
}

/// `p@` occurs in `trace`.
fn on_trace(trace: &Vec<ModPath>, p: &ModPath) -> (b: bool)
    ensures
        b == paths_view(trace@).contains(p@),
{
    let mut i: usize = 0;
    while i < trace.len()
        invariant
            i <= trace@.len(),
            forall|j: int| 0 <= j < i ==> trace@[j]@ != p@,
        decreases trace@.len() - i,
    {
        if trace[i].same(p) {
            proof {
                assert(paths_view(trace@)[i as int] == p@);
            }
            return true;
        }
        i = i + 1;
    }
    proof {
        assert forall|j: int| 0 <= j < paths_view(trace@).len() implies paths_view(trace@)[j] != p@ by {
            assert(paths_view(trace@)[j] == trace@[j]@);
        }
    }
    false
}

impl ModuleCache {
    /// The module under `path`: from the cache where it is there, else loaded from
    /// `sources`, resolved and put into the cache. `trace` holds the paths of the
    /// modules being resolved; its last one names `path` in a directive. `root`
    /// holds the path and source of the module whose load this is part of, and the
    /// paths that were in the cache when that load began.
    fn resolve_module(
        &mut self,
        sources: &SourceSet,
        trace: &mut Vec<ModPath>,
        path: &ModPath,
        Ghost(root): Ghost<(Seq<Comp>, Seq<char>, Set<Seq<Comp>>)>,
    ) -> (r: Result<usize, LoadError>)
        requires
            old(self).wf(),
            forall|q: Seq<Comp>| #[trigger] root.2.contains(q) ==> old(self)@.contains_key(q),
            trace_ok(sources@, paths_view(old(trace)@)),
            named_from(sources@, root.2, root.0, root.1, paths_view(old(trace)@), path@),
        ensures
            final(self).wf(),
            extends(final(self)@, old(self)@),
            fresh_resolved(final(self)@, old(self)@, sources@),
            r matches Ok(i) ==> {
                &&& i < final(self).entries@.len()
                &&& final(self).entries@[i as int].0@ == path@
                &&& final(trace)@ == old(trace)@
                &&& forall|k: Seq<Comp>|
                    #[trigger] final(self)@.contains_key(k) && !old(self)@.contains_key(k)
                        ==> !paths_view(old(trace)@).contains(k)
            },
            r matches Err(e) ==> error_sound(e, sources@, root.2, root.0, root.1),
            r matches Err(LoadError::FailedLoading { path: p }) ==> !final(self)@.contains_key(p@),
            walk_module(sources@, old(self)@.dom(), paths_view(old(trace)@), path@) == outcome(
                r,
                final(self)@.dom(),
            ),
        decreases sources.size() - old(trace)@.len(), 0int,
    {
        if on_trace(trace, path) {
            let from = trace[trace.len() - 1].copy();
            let p = path.copy();
            proof {
                let t = paths_view(trace@);
                assert(t.last() == from@);
                assert(t.contains(p@));
                assert(named_from(sources@, root.2, root.0, root.1, t, p@));
                lemma_circular_sound(sources@, root.2, root.0, root.1, t, p, from);
            }
            return Err(LoadError::CircularDependency { path: p, from });
        }
        match index_get(&self.index, path) {
            Some(i) => {
                return Ok(i);
            },
            None => {},
        }
        let source = match sources.get(path) {
            Some(s) => s.as_str().to_owned(),
            None => {
                proof {
                    assert(named_from(sources@, root.2, root.0, root.1, paths_view(trace@), path@));
                }
                return Err(LoadError::FailedLoading { path: path.copy() });
            },
        };
        let mut module = Module::parse(path.copy(), source);
        let ghost t0 = paths_view(trace@);
        trace.push(path.copy());
        let ghost t1 = paths_view(trace@);
        proof {
            assert(t1 =~= t0.push(path@));
            assert forall|i: int| 0 <= i < t1.len() - 1 implies #[trigger] links(
                sources@,
                t1[i],
                t1[i + 1],
            ) by {
                if i < t0.len() - 1 {
                    assert(links(sources@, t0[i], t0[i + 1]));
                }
            }
            assert forall|i: int| 0 <= i < t1.len() implies #[trigger] lookup(sources@, t1[i]) is Some by {
                if i < t0.len() {
                    assert(lookup(sources@, t0[i]) is Some);
                }
            }
            assert(t1.no_duplicates());
            lemma_trace_len(sources@, t1);
            if t0.len() > 0 {
                assert(t1[0] == t0[0]);
            }
            assert(trace_from(sources@, root.2, root.0, root.1, t1));
        }
        let ghost c_before = self@;
        match module.resolve_includes(self, sources, trace, Ghost(root)) {
            Ok(()) => {},
            Err(e) => {
                return Err(e);
            },
        }
        let ghost c_after = self@;
        let key = match trace.pop() {
            Some(k) => k,
            None => {
                return Ok(0);
            },
        };
        proof {
            assert(paths_view(trace@) =~= t0);
            assert(key@ == path@);
            assert(t1.contains(path@)) by {
                assert(t1[t0.len() as int] == path@);
            }
            assert(!c_after.contains_key(path@));
        }
        let i = self.insert_and_get(key, module);
        proof {
            let c1 = self@;
            assert(extends(c1, c_after));
            lemma_resolved_extends(module@, c_after, c1);
            assert forall|k: Seq<Comp>| #[trigger] c1.contains_key(k) && !old(self)@.contains_key(
                k,
            ) implies {
                &&& c1[k].path == k
                &&& lookup(sources@, k) == Some(c1[k].source)
                &&& resolved_in(c1[k], c1)
            } by {
                if k != path@ {
                    assert(c_after.contains_key(k));
                    lemma_resolved_extends(c_after[k], c_after, c1);
                }
            }
            assert forall|k: Seq<Comp>| #[trigger] c1.contains_key(k) && !old(self)@.contains_key(
                k,
            ) implies !t0.contains(k) by {
                if k != path@ {
                    assert(c_after.contains_key(k));
                    assert(!t1.contains(k));
                    if t0.contains(k) {
                        let j = choose|j: int| 0 <= j < t0.len() && t0[j] == k;
                        assert(t1[j] == k);
                    }
                }
            }
        }
        Ok(i)
    }
}

impl Module {
    /// Resolves the directives of the module: each module they name is taken from
    /// or loaded into the cache, the code is the source with each directive
    /// replaced by that module's code, and the dependencies are those that the
    /// directives bring. `root` is as for `resolve_module`.
    fn resolve_includes(
        &mut self,
        cache: &mut ModuleCache,
        sources: &SourceSet,
        trace: &mut Vec<ModPath>,
        Ghost(root): Ghost<(Seq<Comp>, Seq<char>, Set<Seq<Comp>>)>,
    ) -> (r: Result<(), LoadError>)
        requires
            old(cache).wf(),
            forall|q: Seq<Comp>| #[trigger] root.2.contains(q) ==> old(cache)@.contains_key(q),
            old(self)@.includes == parse_includes(encode_utf8(old(self)@.source)),
            old(self)@.deps.is_empty(),
            trace_ok(sources@, paths_view(old(trace)@)),
            trace_from(sources@, root.2, root.0, root.1, paths_view(old(trace)@)),
            old(trace)@.len() == 0 ==> old(self)@.path == root.0 && old(self)@.source == root.1,
            old(trace)@.len() > 0 ==> paths_view(old(trace)@).last() == old(self)@.path && lookup(
                sources@,
                old(self)@.path,
            ) == Some(old(self)@.source),
        ensures
            final(cache).wf(),
            extends(final(cache)@, old(cache)@),
            fresh_resolved(final(cache)@, old(cache)@, sources@),
            final(self)@.path == old(self)@.path,
            final(self)@.source == old(self)@.source,
            final(self)@.includes == old(self)@.includes,
            r is Ok ==> {
                &&& resolved_in(final(self)@, final(cache)@)
                &&& final(trace)@ == old(trace)@
                &&& forall|k: Seq<Comp>|
                    #[trigger] final(cache)@.contains_key(k) && !old(cache)@.contains_key(k)
                        ==> !paths_view(old(trace)@).contains(k)
            },
            r matches Err(e) ==> error_sound(e, sources@, root.2, root.0, root.1),
            r matches Err(LoadError::FailedLoading { path: p }) ==> !final(cache)@.contains_key(p@),
            walk_own(
                sources@,
                old(cache)@.dom(),
                paths_view(old(trace)@),
                old(self)@.path,
                old(self)@.source,
            ) == outcome(r, final(cache)@.dom()),
        decreases sources.size() - old(trace)@.len(), 1int,
    {
        let dir = match parent_path(&self.path) {
            Ok(d) => d,
            Err(e) => {
                proof {
                    let t0 = paths_view(trace@);
                    if t0.len() > 0 {
                        let t = t0.drop_last();
                        assert(named_from(sources@, root.2, root.0, root.1, t, self@.path)) by {
                            if t.len() > 0 {
                                let i = t.len() - 1;
                                assert(links(sources@, t0[i], t0[i + 1]));
                                assert(t[0] == t0[0]);
                            }
                        }
                    }
                }
                return Err(e);
            },
        };
        let ghost incs = self@.includes;
        let ghost c0 = cache@;
        let ghost t0 = paths_view(trace@);
        let n = self.includes.len();
        let mut codes: Vec<Vec<u8>> = Vec::new();
        let mut z: usize = 0;
        while z < n
            invariant
                z <= n,
                codes@.len() == z,
            decreases n - z,
        {
            codes.push(Vec::new());
            z = z + 1;
        }
        let mut deps = set_new();
        let mut k = n;
        let ghost mut top: nat = 0;
        proof {
            assert(set_contents(deps) =~= deps_between(cache@, dir@, incs, n as int, n as int));
        }
        while k > 0
            invariant
                cache.wf(),
                c0 == old(cache)@,
                forall|q: Seq<Comp>| #[trigger] root.2.contains(q) ==> c0.contains_key(q),
                extends(cache@, c0),
                fresh_resolved(cache@, c0, sources@),
                forall|q: Seq<Comp>|
                    #[trigger] cache@.contains_key(q) && !c0.contains_key(q) ==> !t0.contains(q),
                paths_view(trace@) == t0,
                trace@ == old(trace)@,
                trace_ok(sources@, t0),
                trace_from(sources@, root.2, root.0, root.1, t0),
                t0.len() == 0 ==> self@.path == root.0 && self@.source == root.1,
                t0.len() > 0 ==> t0.last() == self@.path && lookup(sources@, self@.path) == Some(
                    self@.source,
                ),
                self@ == old(self)@,
                incs == self@.includes,
                incs == parse_includes(encode_utf8(self@.source)),
                n == self.includes@.len(),
                parent_of(self@.path) == Some(dir@),
                k <= n,
                codes@.len() == n,
                forall|j: int|
                    k <= j < n ==> {
                        &&& parent_of(#[trigger] target(dir@, incs[j])) is Some
                        &&& cache@.contains_key(target(dir@, incs[j]))
                        &&& codes@[j]@ == encode_utf8(cache@[target(dir@, incs[j])].code)
                        &&& cache@[target(dir@, incs[j])].depth < top
                    },
                set_contents(deps) == deps_between(cache@, dir@, incs, k as int, n as int),
                walk_includes(sources@, c0.dom(), t0, dir@, incs, n as int) == walk_includes(
                    sources@,
                    cache@.dom(),
                    t0,
                    dir@,
                    incs,
                    k as int,
                ),
            decreases k,
        {
            k = k - 1;
            let inc_path = dir.join(&self.includes[k].path).normalize();
            proof {
                assert(incs[k as int] == self.includes@[k as int].view());
                assert(inc_path@ == target(dir@, incs[k as int]));
                assert(inc_path@ == target(
                    parent_of(self@.path)->0,
                    parse_includes(encode_utf8(self@.source))[k as int],
                ));
                assert(names(self@.path, self@.source, inc_path@));
                assert(named_from(sources@, root.2, root.0, root.1, t0, inc_path@));
            }
            let inc_dir = match parent_path(&inc_path) {
                Ok(d) => d,
                Err(e) => {
                    return Err(e);
                },
            };
            let ghost c_prev = cache@;
            let res = cache.resolve_module(sources, trace, &inc_path, Ghost(root));
            let ghost c_now = cache@;
            proof {
                lemma_fresh_trans(c0, c_prev, c_now, sources@);
            }
            let i = match res {
                Ok(i) => i,
                Err(e) => {
                    return Err(e);
                },
            };
            proof {
                lemma_deps_between_extends(c_prev, c_now, dir@, incs, k + 1, n as int);
                assert forall|q: Seq<Comp>| #[trigger] c_now.contains_key(q) && !c0.contains_key(q)
                    implies !t0.contains(q) by {
                    if !c_prev.contains_key(q) {
                        assert(!paths_view(old(trace)@).contains(q));
                    }
                }
                assert(c_now[inc_path@] == cache.entries@[i as int].1@);
            }
            let items = set_items(&cache.entries[i].1.dependencies);
            let ghost base = set_contents(deps);
            let mut j: usize = 0;
            while j < items.len()
                invariant
                    j <= items@.len(),
                    set_contents(deps) == base.union(
                        Set::new(
                            |p: Seq<Comp>|
                                exists|jj: int|
                                    0 <= jj < j && p == normpath(
                                        join_path(inc_dir@, #[trigger] items@[jj]@),
                                    ),
                        ),
                    ),
                decreases items@.len() - j,
            {
                let dep = inc_dir.join(&items[j]).normalize();
                let ghost before = set_contents(deps);
                set_insert(&mut deps, dep);
                j = j + 1;
                proof {
                    assert(set_contents(deps) =~= base.union(
                        Set::new(
                            |p: Seq<Comp>|
                                exists|jj: int|
                                    0 <= jj < j && p == normpath(
                                        join_path(inc_dir@, #[trigger] items@[jj]@),
                                    ),
                        ),
                    )) by {
                        assert forall|p: Seq<Comp>| #[trigger] set_contents(deps).contains(p) implies base.union(
                            Set::new(
                                |p: Seq<Comp>|
                                    exists|jj: int|
                                        0 <= jj < j && p == normpath(
                                            join_path(inc_dir@, #[trigger] items@[jj]@),
                                        ),
                            ),
                        ).contains(p) by {
                            if p == dep@ {
                                assert(p == normpath(join_path(inc_dir@, items@[j - 1]@)));
                            }
                        }
                    }
                }
            }
            let ghost with_items = set_contents(deps);
            let ghost ip = inc_path@;
            set_insert(&mut deps, inc_path);
            proof {
                let t = target(dir@, incs[k as int]);
                assert(t == ip);
                assert(set_contents(deps) =~= deps_between(c_now, dir@, incs, k as int, n as int)) by {
                    assert forall|p: Seq<Comp>| set_contents(deps).contains(p) implies deps_between(
                        c_now,
                        dir@,
                        incs,
                        k as int,
                        n as int,
                    ).contains(p) by {
                        if p == ip {
                            assert(brings(c_now, t, p));
                        } else if base.contains(p) {
                            let kk = choose|kk: int|
                                k + 1 <= kk < n && #[trigger] brings(c_now, target(dir@, incs[kk]), p);
                        } else {
                            let jj = choose|jj: int|
                                0 <= jj < j && p == normpath(join_path(inc_dir@, #[trigger] items@[jj]@));
                            assert(c_now[t].deps.contains(items@[jj]@));
                            assert(brings(c_now, t, p));
                        }
                    }
                    assert forall|p: Seq<Comp>| deps_between(c_now, dir@, incs, k as int, n as int).contains(
                        p,
                    ) implies set_contents(deps).contains(p) by {
                        let kk = choose|kk: int|
                            k <= kk < n && #[trigger] brings(c_now, target(dir@, incs[kk]), p);
                        if kk == k {
                            if p != t {
                                let d = choose|d: Seq<Comp>|
                                    c_now[t].deps.contains(d) && p == normpath(
                                        join_path(parent_of(t)->0, d),
                                    );
                                let jj = choose|jj: int| 0 <= jj < items@.len() && #[trigger] items@[jj]@ == d;
                                assert(with_items.contains(p));
                            }
                        } else {
                            assert(deps_between(c_now, dir@, incs, k + 1, n as int).contains(p));
                        }
                    }
                }
            }
            let code_bytes = vstd::slice::slice_to_vec(cache.entries[i].1.code.as_str().as_bytes());
            codes.set(k, code_bytes);
            proof {
                if top <= cache@[inc_path@].depth {
                    top = cache@[inc_path@].depth + 1;
                }
                assert forall|jx: int| k <= jx < n implies {
                    &&& parent_of(#[trigger] target(dir@, incs[jx])) is Some
                    &&& cache@.contains_key(target(dir@, incs[jx]))
                    &&& codes@[jx]@ == encode_utf8(cache@[target(dir@, incs[jx])].code)
                    &&& cache@[target(dir@, incs[jx])].depth < top
                } by {
                    if jx > k {
                        assert(c_prev.contains_key(target(dir@, incs[jx])));
                    }
                }
            }
        }
        let ghost b = encode_utf8(self@.source);
        proof {
            lemma_includes_well_placed(b, 0);
        }
        let out = splice_exec(self.source.as_str().as_bytes(), &self.includes, &codes);
        proof {
            assert(bytes_view(codes@) =~= included_codes(cache@, dir@, incs));
            lemma_splice_valid(b, incs, bytes_view(codes@), 0, 0);
        }
        self.code = string_from_utf8(out);
        self.dependencies = deps;
        self.depth = Ghost(top);
        Ok(())
    }
}

// loading

/// The path that the text `path` names.
pub open spec fn path_key(path: Seq<char>) -> Seq<Comp> {
    parse_path(encode_utf8(path))
}

/// What loading the module at the text `path` answers, with `source` as its
/// source where given and else the source under its normal path in `sources`, and
/// with the modules at the paths of `cached` at hand: a path without a directory
/// is refused; else, without a source given, a path without a source in `sources`
/// is refused; each refusal is so; and a loaded module has the normal path and
/// that source, and is resolved in `c`.
pub open spec fn load_answer(
    r: Result<ModuleView, LoadError>,
    path: Seq<char>,
    source: Option<Seq<char>>,
    sources: Seq<(Seq<Comp>, Seq<char>)>,
    cached: Set<Seq<Comp>>,
    c: Map<Seq<Comp>, ModuleView>,
) -> bool {
    let p = normpath(path_key(path));
    let s = match source {
        Some(s) => s,
        None => lookup(sources, p)->0,
    };
    &&& parent_of(p) is None ==> (r matches Err(LoadError::InvalidPath { path: q }) && q@ == p)
    &&& parent_of(p) is Some && source is None && lookup(sources, p) is None ==> (r matches Err(
        LoadError::FailedLoading { path: q },
    ) && q@ == p)
    &&& r matches Err(e) ==> error_sound(e, sources, cached, p, s) || (source is None && (e matches LoadError::FailedLoading { path: q } && q@ == p && lookup(sources, p) is None))
    &&& r matches Err(LoadError::FailedLoading { path: q }) ==> q@ == p || !c.contains_key(q@)
    &&& r matches Ok(m) ==> {
        &&& m.path == p
        &&& m.source == s
        &&& resolved_in(m, c)
    }
}

/// What loading the module at the text `path` comes to, with `source` as its
/// source where given and else the source under its normal path in `sources`, and
/// with the paths of `cached` in the cache: a normal path without a directory
/// fails; else, without a source given, a path without a source in `sources`
/// fails; else the module's directives are resolved on an empty trace.
pub open spec fn load_walk(
    path: Seq<char>,
    source: Option<Seq<char>>,
    sources: Seq<(Seq<Comp>, Seq<char>)>,
    cached: Set<Seq<Comp>>,
) -> Result<Set<Seq<Comp>>, LoadErrorView> {
    let p = normpath(path_key(path));
    if parent_of(p) is None {
        Err(LoadErrorView::InvalidPath { path: p })
    } else {
        match source {
            Some(s) => walk_own(sources, cached, Seq::empty(), p, s),
            None => match lookup(sources, p) {
                Some(s) => walk_own(sources, cached, Seq::empty(), p, s),
                None => Err(LoadErrorView::FailedLoading { path: p }),
            },
        }
    }
}

/// A module answered as a value.
pub open spec fn answer_view(r: Result<Module, LoadError>) -> Result<ModuleView, LoadError> {
    match r {
        Ok(m) => Ok(m@),
        Err(e) => Err(e),
    }
}

impl Module {
    fn load_helper(cache: &mut ModuleCache, path: &str, source_code: Option<&str>, sources: &SourceSet) -> (r:
        Result<Module, LoadError>)
        requires
            old(cache).wf(),
        ensures
            final(cache).wf(),
            extends(final(cache)@, old(cache)@),
            fresh_resolved(final(cache)@, old(cache)@, sources@),
            load_answer(
                answer_view(r),
                path@,
                match source_code {
                    Some(s) => Some(s@),
                    None => None,
                },
                sources@,
                old(cache)@.dom(),
                final(cache)@,
            ),
            r is Ok <==> load_succeeds(
                path@,
                match source_code {
                    Some(s) => Some(s@),
                    None => None,
                },
                sources@,
                old(cache)@.dom(),
            ),
            load_walk(
                path@,
                match source_code {
                    Some(s) => Some(s@),
                    None => None,
                },
                sources@,
                old(cache)@.dom(),
            ) == outcome(r, final(cache)@.dom()),
    {
        let p = ModPath::parse(path.as_bytes()).normalize();
        match parent_path(&p) {
            Ok(_) => {},
            Err(e) => {
                return Err(e);
            },
        }
        let source = match source_code {
            Some(s) => s.to_owned(),
            None => match sources.get(&p) {
                Some(s) => s.as_str().to_owned(),
                None => {
                    return Err(LoadError::FailedLoading { path: p });
                },
            },
        };
        let ghost root = (p@, source@, cache@.dom());
        let mut module = Module::parse(p, source);
        let mut trace: Vec<ModPath> = Vec::new();
        proof {
            assert(paths_view(trace@) =~= Seq::<Seq<Comp>>::empty());
        }
        let ghost src = match source_code {
            Some(s) => Some(s@),
            None => None,
        };
        let r = match module.resolve_includes(cache, sources, &mut trace, Ghost(root)) {
            Ok(()) => Ok(module),
            Err(e) => Err(e),
        };
        proof {
            match answer_view(r) {
                Ok(mv) => law_resolved_module_acyclic(mv, cache@, old(cache)@, sources@),
                Err(_) => {
                    if load_succeeds(path@, src, sources@, old(cache)@.dom()) {
                        law_load_succeeds(
                            answer_view(r),
                            path@,
                            src,
                            sources@,
                            old(cache)@.dom(),
                            cache@,
                        );
                    }
                },
            }
        }
        r
    }

    /// The module at `path` with `source_code`, its directives resolved with the
    /// modules of `sources`, in a cache of its own.
    pub fn load(path: &str, source_code: &str, sources: &SourceSet) -> (r: Result<Module, LoadError>)
        ensures
            exists|c: Map<Seq<Comp>, ModuleView>|
                #[trigger] loaded_from(c, sources@) && load_answer(
                    answer_view(r),
                    path@,
                    Some(source_code@),
                    sources@,
                    Set::empty(),
                    c,
                ),
            r is Ok <==> nothing_fails(
                sources@,
                Set::empty(),
                normpath(path_key(path@)),
                source_code@,
            ),
            r is Ok == load_walk(path@, Some(source_code@), sources@, Set::empty()) is Ok,
            r matches Err(e) ==> (load_walk(
                path@,
                Some(source_code@),
                sources@,
                Set::empty(),
            ) matches Err(f) && f == e@),
    {
        let mut cache = ModuleCache::new();
        proof {
            assert(cache@.dom() =~= Set::<Seq<Comp>>::empty());
        }
        let r = Module::load_helper(&mut cache, path, Some(source_code), sources);
        proof {
            assert(loaded_from(cache@, sources@));
        }
        r
    }

    /// The module at `path` with the source under its normal path in `sources`,
    /// its directives resolved with the modules of `sources`, in a cache of its
    /// own.
    pub fn load_from_path(path: &str, sources: &SourceSet) -> (r: Result<Module, LoadError>)
        ensures
            exists|c: Map<Seq<Comp>, ModuleView>|
                #[trigger] loaded_from(c, sources@) && load_answer(
                    answer_view(r),
                    path@,
                    None,
                    sources@,
                    Set::empty(),
                    c,
                ),
            r is Ok <==> lookup(sources@, normpath(path_key(path@))) is Some && nothing_fails(
                sources@,
                Set::empty(),
                normpath(path_key(path@)),
                lookup(sources@, normpath(path_key(path@)))->0,
            ),
            r is Ok == load_walk(path@, None, sources@, Set::empty()) is Ok,
            r matches Err(e) ==> (load_walk(path@, None, sources@, Set::empty()) matches Err(f)
                && f == e@),
    {
        let mut cache = ModuleCache::new();
        proof {
            assert(cache@.dom() =~= Set::<Seq<Comp>>::empty());
        }
        let r = Module::load_helper(&mut cache, path, None, sources);
        proof {
            assert(loaded_from(cache@, sources@));
        }
        r
    }
}

impl ModuleCache {
    /// The module under the path that the text `path` names, if there is one.
    pub fn module(&self, path: &str) -> (r: Option<&Module>)
        requires
            self.wf(),
        ensures
            r is Some == self@.contains_key(path_key(path@)),
            r matches Some(m) ==> m@ == self@[path_key(path@)],
    {
        let key = ModPath::parse(path.as_bytes());
        match index_get(&self.index, &key) {
            Some(i) => Some(&self.entries[i].1),
            None => None,
        }
    }

    /// The paths and modules of the cache, each path once.
    pub fn modules(&self) -> (r: Vec<(&ModPath, &Module)>)
        requires
            self.wf(),
        ensures
            forall|i: int|
                0 <= i < r@.len() ==> self@.contains_key(#[trigger] r@[i].0@) && r@[i].1@
                    == self@[r@[i].0@],
            forall|k: Seq<Comp>|
                self@.contains_key(k) ==> exists|i: int| 0 <= i < r@.len() && #[trigger] r@[i].0@ == k,
            forall|i: int, j: int| 0 <= i < j < r@.len() ==> #[trigger] r@[i].0@ != #[trigger] r@[j].0@,
    {
        let mut r: Vec<(&ModPath, &Module)> = Vec::new();
        let mut i: usize = 0;
        while i < self.entries.len()
            invariant
                self.wf(),
                i <= self.entries@.len(),
                r@.len() == i,
                forall|j: int|
                    0 <= j < i ==> #[trigger] r@[j].0@ == self.entries@[j].0@ && r@[j].1@
                        == self.entries@[j].1@,
            decreases self.entries@.len() - i,
        {
            r.push((&self.entries[i].0, &self.entries[i].1));
            i = i + 1;
        }
        proof {
            let m = index_contents(self.index);
            assert forall|j: int| 0 <= j < r@.len() implies self@.contains_key(#[trigger] r@[j].0@)
                && r@[j].1@ == self@[r@[j].0@] by {
                assert(m.contains_key(self.entries@[j].0@));
            }
            assert forall|k: Seq<Comp>| self@.contains_key(k) implies exists|j: int|
                0 <= j < r@.len() && #[trigger] r@[j].0@ == k by {
                assert(r@[m[k] as int].0@ == k);
            }
            assert forall|a: int, b: int| 0 <= a < b < r@.len() implies #[trigger] r@[a].0@
                != #[trigger] r@[b].0@ by {
                assert(m[self.entries@[a].0@] == a);
                assert(m[self.entries@[b].0@] == b);
            }
        }
        r
    }

    fn load_helper(&mut self, path: &str, source_code: Option<&str>, sources: &SourceSet) -> (r: Result<
        usize,
        LoadError,
    >)
        requires
            old(self).wf(),
        ensures
            final(self).wf(),
            r is Err ==> extends(final(self)@, old(self)@) && fresh_resolved(
                final(self)@,
                old(self)@,
                sources@,
            ),
            r matches Ok(i) ==> i < final(self).entries@.len() && final(self).entries@[i as int].0@
                == path_key(path@),
            exists|c: Map<Seq<Comp>, ModuleView>|
                #[trigger] extends(c, old(self)@) && fresh_resolved(c, old(self)@, sources@)
                    && match r {
                    Ok(_) => final(self)@ == c.insert(
                        path_key(path@),
                        final(self)@[path_key(path@)],
                    ) && load_answer(
                        Ok(final(self)@[path_key(path@)]),
                        path@,
                        match source_code {
                            Some(s) => Some(s@),
                            None => None,
                        },
                        sources@,
                        old(self)@.dom(),
                        c,
                    ),
                    Err(e) => final(self)@ == c && load_answer(
                        Err(e),
                        path@,
                        match source_code {
                            Some(s) => Some(s@),
                            None => None,
                        },
                        sources@,
                        old(self)@.dom(),
                        c,
                    ),
                },
            r is Ok <==> load_succeeds(
                path@,
                match source_code {
                    Some(s) => Some(s@),
                    None => None,
                },
                sources@,
                old(self)@.dom(),
            ),
            r is Ok == load_walk(
                path@,
                match source_code {
                    Some(s) => Some(s@),
                    None => None,
                },
                sources@,
                old(self)@.dom(),
            ) is Ok,
            r matches Err(e) ==> (load_walk(
                path@,
                match source_code {
                    Some(s) => Some(s@),
                    None => None,
                },
                sources@,
                old(self)@.dom(),
            ) matches Err(f) && f == e@),
    {
        let m = Module::load_helper(self, path, source_code, sources);
        match m {
            Ok(module) => {
                let ghost c = self@;
                let key = ModPath::parse(path.as_bytes());
                let i = self.insert_and_get(key, module);
                Ok(i)
            },
            Err(e) => Err(e),
        }
    }
}

impl ModuleCache {
    /// Loads the module at `path` with `source_code`, its directives resolved with
    /// the modules of the cache and, for those it lacks, of `sources`, and puts it
    /// under the path that `path` names.
    pub fn load(&mut self, path: &str, source_code: &str, sources: &SourceSet) -> (r: Result<
        &Module,
        LoadError,
    >)
        requires
            old(self).wf(),
        ensures
            final(self).wf(),
            r matches Ok(m) ==> m@ == final(self)@[path_key(path@)],
            exists|c: Map<Seq<Comp>, ModuleView>|
                #[trigger] extends(c, old(self)@) && fresh_resolved(c, old(self)@, sources@)
                    && match r {
                    Ok(_) => final(self)@ == c.insert(
                        path_key(path@),
                        final(self)@[path_key(path@)],
                    ) && load_answer(
                        Ok(final(self)@[path_key(path@)]),
                        path@,
                        Some(source_code@),
                        sources@,
                        old(self)@.dom(),
                        c,
                    ),
                    Err(e) => final(self)@ == c && load_answer(
                        Err(e),
                        path@,
                        Some(source_code@),
                        sources@,
                        old(self)@.dom(),
                        c,
                    ),
                },
            r is Ok <==> nothing_fails(
                sources@,
                old(self)@.dom(),
                normpath(path_key(path@)),
                source_code@,
            ),
            r is Ok == load_walk(path@, Some(source_code@), sources@, old(self)@.dom()) is Ok,
            r matches Err(e) ==> (load_walk(
                path@,
                Some(source_code@),
                sources@,
                old(self)@.dom(),
            ) matches Err(f) && f == e@),
    {
        match self.load_helper(path, Some(source_code), sources) {
            Ok(i) => Ok(&self.entries[i].1),
            Err(e) => Err(e),
        }
    }
}

impl ModuleCache {
    /// Loads the module at `path` with the source under its normal path in
    /// `sources`, its directives resolved with the modules of the cache and, for
    /// those it lacks, of `sources`, and puts it under the path that `path` names.
    pub fn load_from_path(&mut self, path: &str, sources: &SourceSet) -> (r: Result<&Module, LoadError>)
        requires
            old(self).wf(),
        ensures
            final(self).wf(),
            r matches Ok(m) ==> m@ == final(self)@[path_key(path@)],
            exists|c: Map<Seq<Comp>, ModuleView>|
                #[trigger] extends(c, old(self)@) && fresh_resolved(c, old(self)@, sources@)
                    && match r {
                    Ok(_) => final(self)@ == c.insert(
                        path_key(path@),
                        final(self)@[path_key(path@)],
                    ) && load_answer(
                        Ok(final(self)@[path_key(path@)]),
                        path@,
                        None,
                        sources@,
                        old(self)@.dom(),
                        c,
                    ),
                    Err(e) => final(self)@ == c && load_answer(
                        Err(e),
                        path@,
                        None,
                        sources@,
                        old(self)@.dom(),
                        c,
                    ),
                },
            r is Ok <==> lookup(sources@, normpath(path_key(path@))) is Some && nothing_fails(
                sources@,
                old(self)@.dom(),
                normpath(path_key(path@)),
                lookup(sources@, normpath(path_key(path@)))->0,
            ),
            r is Ok == load_walk(path@, None, sources@, old(self)@.dom()) is Ok,
            r matches Err(e) ==> (load_walk(path@, None, sources@, old(self)@.dom()) matches Err(
                f,
            ) && f == e@),
    {
        match self.load_helper(path, None, sources) {
            Ok(i) => Ok(&self.entries[i].1),
            Err(e) => Err(e),
        }
    }
}

// laws

/// A resolved module without directives has its source as its code and no
/// dependencies.
pub proof fn law_plain_module(m: ModuleView, c: Map<Seq<Comp>, ModuleView>)
    requires
        resolved_in(m, c),
        m.includes.len() == 0,
    ensures
        m.code == m.source,
        m.deps.is_empty(),
{
    let b = encode_utf8(m.source);
    assert(splice(b, m.includes, included_codes(c, parent_of(m.path)->0, m.includes)) =~= b);
    vstd::utf8::encode_utf8_decode_utf8(m.code);
    vstd::utf8::encode_utf8_decode_utf8(m.source);
    assert(deps_between(c, parent_of(m.path)->0, m.includes, 0, 0) =~= Set::<Seq<Comp>>::empty());
}

/// Each module that a resolved module includes is one of its dependencies.
pub proof fn law_included_are_dependencies(m: ModuleView, c: Map<Seq<Comp>, ModuleView>, k: int)
    requires
        resolved_in(m, c),
        0 <= k < m.includes.len(),
    ensures
        m.deps.contains(target(parent_of(m.path)->0, m.includes[k])),
{
    let t = target(parent_of(m.path)->0, m.includes[k]);
    assert(brings(c, t, t));
}

/// Nothing can make loading the root module (at `rp`, with source `rs`) fail
/// with the modules at the paths of `cached` at hand: the root has a directory,
/// and every path that a chain of directives from the root reaches outside
/// `cached` has a directory and, unless it lies in `cached`, a source, and does
/// not come back onto that chain.
pub open spec fn nothing_fails(
    sources: Seq<(Seq<Comp>, Seq<char>)>,
    cached: Set<Seq<Comp>>,
    rp: Seq<Comp>,
    rs: Seq<char>,
) -> bool {
    &&& parent_of(rp) is Some
    &&& forall|t: Seq<Seq<Comp>>, p: Seq<Comp>|
        #[trigger] named_from(sources, cached, rp, rs, t, p) ==> {
            &&& parent_of(p) is Some
            &&& !cached.contains(p) ==> lookup(sources, p) is Some && !t.contains(p)
        }
}

/// Nothing can make loading the module at the text `path` fail, with `source` as
/// its source where given and else the source under its normal path in
/// `sources` (which is then there), and with the modules at the paths of
/// `cached` at hand.
pub open spec fn load_succeeds(
    path: Seq<char>,
    source: Option<Seq<char>>,
    sources: Seq<(Seq<Comp>, Seq<char>)>,
    cached: Set<Seq<Comp>>,
) -> bool {
    let p = normpath(path_key(path));
    match source {
        Some(s) => nothing_fails(sources, cached, p, s),
        None => lookup(sources, p) is Some && nothing_fails(sources, cached, p, lookup(sources, p)->0),
    }
}

/// Where nothing can make it fail, loading a module succeeds.
pub proof fn law_load_succeeds(
    r: Result<ModuleView, LoadError>,
    path: Seq<char>,
    source: Option<Seq<char>>,
    sources: Seq<(Seq<Comp>, Seq<char>)>,
    cached: Set<Seq<Comp>>,
    c: Map<Seq<Comp>, ModuleView>,
)
    requires
        load_answer(r, path, source, sources, cached, c),
        load_succeeds(path, source, sources, cached),
    ensures
        r is Ok,
{
    let p = normpath(path_key(path));
    let s = match source {
        Some(s) => s,
        None => lookup(sources, p)->0,
    };
    match r {
        Ok(_) => {},
        Err(e) => {
            assert(error_sound(e, sources, cached, p, s));
            match e {
                LoadError::FailedLoading { path: q } => {
                    let t = choose|t: Seq<Seq<Comp>>| named_from(sources, cached, p, s, t, q@);
                    assert(named_from(sources, cached, p, s, t, q@));
                },
                LoadError::InvalidPath { path: q } => {
                    if q@ != p {
                        let t = choose|t: Seq<Seq<Comp>>| named_from(sources, cached, p, s, t, q@);
                        assert(named_from(sources, cached, p, s, t, q@));
                    }
                },
                LoadError::CircularDependency { path: q, from } => {
                    let t = choose|t: Seq<Seq<Comp>>|
                        #![trigger named_from(sources, cached, p, s, t, q@)]
                        named_from(sources, cached, p, s, t, q@) && t.contains(q@) && t.last()
                            == from@;
                    assert(named_from(sources, cached, p, s, t, q@));
                    let i = choose|i: int| 0 <= i < t.len() && t[i] == q@;
                    assert(!cached.contains(t[i]));
                },
            }
        },
    }
}

impl Default for ModuleCache {
    fn default() -> (c: Self)
        ensures
            c.wf(),
            c@ == Map::<Seq<Comp>, ModuleView>::empty(),
    {
        ModuleCache::new()
    }
}

impl Default for SourceSet {
    fn default() -> (s: Self)
        ensures
            forall|p: Seq<Comp>| s.source_of(p) is None,
            s.size() == 0,
    {
        SourceSet::new()
    }
}

/// A load into a cache keeps every module it held under another path than the
/// loaded one.
pub proof fn law_load_keeps_other_modules(
    before: Map<Seq<Comp>, ModuleView>,
    c: Map<Seq<Comp>, ModuleView>,
    key: Seq<Comp>,
    m: ModuleView,
    k: Seq<Comp>,
)
    requires
        extends(c, before),
        before.contains_key(k),
        k != key,
    ensures
        c.insert(key, m).contains_key(k),
        c.insert(key, m)[k] == before[k],
{
}

/// Each path that a chain of directives from a resolved module reaches, outside
/// the paths of `c0`, lies in the cache `c` whose modules other than those of `c0`
/// were loaded from the sources, shallower than the module and than each path
/// before it on the chain.
#[verifier::spinoff_prover]
#[verifier::rlimit(40)]
proof fn lemma_reached_cached(
    m: ModuleView,
    c: Map<Seq<Comp>, ModuleView>,
    c0: Map<Seq<Comp>, ModuleView>,
    sources: Seq<(Seq<Comp>, Seq<char>)>,
    t: Seq<Seq<Comp>>,
    p: Seq<Comp>,
)
    requires
        fresh_resolved(c, c0, sources),
        resolved_in(m, c),
        named_from(sources, c0.dom(), m.path, m.source, t, p),
    ensures
        c.contains_key(p),
        parent_of(p) is Some,
        c[p].depth < m.depth,
        forall|i: int|
            0 <= i < t.len() ==> c.contains_key(t[i]) && c[p].depth < c[#[trigger] t[i]].depth,
    decreases t.len(),
{
    if t.len() == 0 {
        let k = choose|k: int|
            0 <= k < parse_includes(encode_utf8(m.source)).len() && p == #[trigger] target(
                parent_of(m.path)->0,
                parse_includes(encode_utf8(m.source))[k],
            );
        assert(c.contains_key(target(parent_of(m.path)->0, m.includes[k])));
    } else {
        let q = t.last();
        let u = t.drop_last();
        assert(named_from(sources, c0.dom(), m.path, m.source, u, q)) by {
            if u.len() == 0 {
                assert(q == t[0]);
            } else {
                let i = u.len() - 1;
                assert(links(sources, t[i], t[i + 1]));
                assert(u[0] == t[0]);
            }
        }
        lemma_reached_cached(m, c, c0, sources, u, q);
        assert(!c0.dom().contains(t[t.len() - 1]));
        let mq = c[q];
        assert(lookup(sources, q) == Some(mq.source));
        assert(resolved_in(mq, c));
        let k = choose|k: int|
            0 <= k < parse_includes(encode_utf8(mq.source)).len() && p == #[trigger] target(
                parent_of(q)->0,
                parse_includes(encode_utf8(mq.source))[k],
            );
        assert(c.contains_key(target(parent_of(mq.path)->0, mq.includes[k])));
        assert forall|i: int| 0 <= i < t.len() implies c.contains_key(t[i]) && c[p].depth
            < c[#[trigger] t[i]].depth by {
            if i < u.len() {
                assert(u[i] == t[i]);
            }
        }
    }
}

/// A module resolved in a cache whose modules other than those of `c0` were
/// loaded from the sources can fail in nothing with the modules of `c0` at hand:
/// every path that a chain of directives from it reaches outside the paths of
/// `c0` has a directory and, unless it is one of them, a source, and no such
/// chain comes back onto itself.
pub proof fn law_resolved_module_acyclic(
    m: ModuleView,
    c: Map<Seq<Comp>, ModuleView>,
    c0: Map<Seq<Comp>, ModuleView>,
    sources: Seq<(Seq<Comp>, Seq<char>)>,
)
    requires
        fresh_resolved(c, c0, sources),
        resolved_in(m, c),
    ensures
        nothing_fails(sources, c0.dom(), m.path, m.source),
{
    assert forall|t: Seq<Seq<Comp>>, p: Seq<Comp>|
        #[trigger] named_from(sources, c0.dom(), m.path, m.source, t, p) implies {
            &&& parent_of(p) is Some
            &&& !c0.dom().contains(p) ==> lookup(sources, p) is Some && !t.contains(p)
        } by {
        lemma_reached_cached(m, c, c0, sources, t, p);
        if t.contains(p) {
            let i = choose|i: int| 0 <= i < t.len() && t[i] == p;
            assert(c[p].depth < c[t[i]].depth);
        }
    }
}

} // verus!
