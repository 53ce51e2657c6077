use vstd::prelude::*;
use std::ops::Range;
use crate::wgsl_path::{Comp, ModPath, parse_path};

verus! {

pub const HASH: u8 = 35u8;

pub const AMPERSAND: u8 = 38u8;

pub const DOUBLE_QUOTE: u8 = 34u8;

pub const SINGLE_QUOTE: u8 = 39u8;

pub const BACKSLASH: u8 = 92u8;

pub const SEMICOLON: u8 = 59u8;

/// `memchr`: the index of the first `needle` in `haystack`, if there is one.
pub assume_specification[ memchr::memchr ](needle: u8, haystack: &[u8]) -> (r: Option<usize>)
    ensures
        r matches Some(i) ==> i < haystack@.len() && haystack@[i as int] == needle && forall|
            j: int,
        |
            0 <= j < i ==> haystack@[j] != needle,
        r is None ==> forall|j: int| 0 <= j < haystack@.len() ==> haystack@[j] != needle,
;

// the grammar of an include directive:
//   ('#' | '&') ws* "include" ws+ ('"' | '\'') path quote [ws* ';' after '&']
// where ws is a Unicode white space char (in UTF-8), the path ends at the first
// quote of the same kind that an even number of backslashes precede, and `\"`
// (or `\'`) and `\\` in the path stand for `"` (or `'`) and `\`.

/// The length of the UTF-8 encoding of a white space char at `i`, or 0.
pub open spec fn ws_len(b: Seq<u8>, i: int) -> nat {
    if i < 0 || i >= b.len() {
        0
    } else if (9 <= b[i] && b[i] <= 13) || b[i] == 32 {
        1
    } else if i + 1 < b.len() && b[i] == 0xc2 && (b[i + 1] == 0x85 || b[i + 1] == 0xa0) {
        2
    } else if i + 2 < b.len() && ((b[i] == 0xe1 && b[i + 1] == 0x9a && b[i + 2] == 0x80) || (b[i]
        == 0xe2 && b[i + 1] == 0x80 && ((0x80 <= b[i + 2] && b[i + 2] <= 0x8a) || b[i + 2] == 0xa8
        || b[i + 2] == 0xa9 || b[i + 2] == 0xaf)) || (b[i] == 0xe2 && b[i + 1] == 0x81 && b[i + 2]
        == 0x9f) || (b[i] == 0xe3 && b[i + 1] == 0x80 && b[i + 2] == 0x80)) {
        3
    } else {
        0
    }
}

/// The first position from `i` on that does not start a white space char.
pub open spec fn skip_ws(b: Seq<u8>, i: int) -> int
    decreases b.len() - i,
{
    if 0 <= i < b.len() && ws_len(b, i) > 0 {
        skip_ws(b, i + ws_len(b, i))
    } else {
        i
    }
}

/// The bytes of the word `include`.
pub open spec fn include_word() -> Seq<u8> {
    seq![105u8, 110u8, 99u8, 108u8, 117u8, 100u8, 101u8]
}

/// A directive starting at `p`: where its path starts and its quote.
pub open spec fn directive_at(b: Seq<u8>, p: int) -> Option<(int, u8)> {
    if 0 <= p < b.len() && (b[p] == HASH || b[p] == AMPERSAND) {
        let j = skip_ws(b, p + 1);
        let k = j + 7;
        if k <= b.len() && b.subrange(j, k) == include_word() && ws_len(b, k) > 0 {
            let m = skip_ws(b, k);
            if m < b.len() && (b[m] == DOUBLE_QUOTE || b[m] == SINGLE_QUOTE) {
                Some((m + 1, b[m]))
            } else {
                None
            }
        } else {
            None
        }
    } else {
        None
    }
}

/// The first directive from `from` on: its start, where its path starts and its quote.
pub open spec fn next_directive(b: Seq<u8>, from: int) -> Option<(int, int, u8)>
    decreases b.len() - from,
{
    if from < 0 || from >= b.len() {
        None
    } else {
        match directive_at(b, from) {
            Some((ps, q)) => Some((from, ps, q)),
            None => next_directive(b, from + 1),
        }
    }
}

/// The first `needle` from `k` on.
pub open spec fn first_byte(b: Seq<u8>, needle: u8, k: int) -> Option<int>
    decreases b.len() - k,
{
    if k < 0 || k >= b.len() {
        None
    } else if b[k] == needle {
        Some(k)
    } else {
        first_byte(b, needle, k + 1)
    }
}

/// The number of backslashes right before `q`.
pub open spec fn backslashes(b: Seq<u8>, q: int) -> nat
    decreases q,
{
    if 0 < q <= b.len() && b[q - 1] == BACKSLASH {
        1 + backslashes(b, q - 1)
    } else {
        0
    }
}

/// The first `quote` from `k` on that an even number of backslashes precede.
pub open spec fn close_quote(b: Seq<u8>, quote: u8, k: int) -> Option<int>
    decreases b.len() - k,
{
    if k < 0 || k >= b.len() {
        None
    } else {
        match first_byte(b, quote, k) {
            None => None,
            Some(q) => if q >= k && backslashes(b, q) % 2 == 1 {
                proof {
                    lemma_first_byte(b, quote, k);
                }
                close_quote(b, quote, q + 1)
            } else {
                Some(q)
            },
        }
    }
}

/// Where a directive whose path closes at `q` ends: after the quote, and for an
/// `&` directive after a `;` that follows (past white space).
pub open spec fn directive_end(b: Seq<u8>, start: int, q: int) -> int {
    let m = skip_ws(b, q + 1);
    if b[start] == AMPERSAND && m < b.len() && b[m] == SEMICOLON {
        m + 1
    } else {
        q + 1
    }
}

/// `s` with each escaped `c` (a backslash and `c`) taken as `c`, scanning from
/// the front.
pub open spec fn unescape(s: Seq<u8>, c: u8) -> Seq<u8>
    decreases s.len(),
{
    if s.len() == 0 {
        Seq::empty()
    } else if s.len() >= 2 && s[0] == BACKSLASH && s[1] == c {
        seq![c] + unescape(s.skip(2), c)
    } else {
        seq![s[0]] + unescape(s.skip(1), c)
    }
}

/// An include directive as a value: the path it names and the bytes it spans.
pub struct IncludeView {
    pub path: Seq<Comp>,
    pub start: int,
    pub end: int,
}

/// The path that the directive's path bytes name.
pub open spec fn include_path(b: Seq<u8>, ps: int, pe: int, quote: u8) -> Seq<Comp> {
    parse_path(unescape(unescape(b.subrange(ps, pe), quote), BACKSLASH))
}

pub proof fn lemma_skip_ws(b: Seq<u8>, i: int)
    ensures
        skip_ws(b, i) >= i,
        0 <= i <= b.len() ==> skip_ws(b, i) <= b.len(),
    decreases b.len() - i,
{
    if 0 <= i < b.len() && ws_len(b, i) > 0 {
        lemma_skip_ws(b, i + ws_len(b, i));
    }
}

pub proof fn lemma_next_directive(b: Seq<u8>, from: int)
    ensures
        next_directive(b, from) matches Some((s, ps, q)) ==> from <= s < ps <= b.len() && (q
            == DOUBLE_QUOTE || q == SINGLE_QUOTE) && (b[s] == HASH || b[s] == AMPERSAND) && b[ps
            - 1] == q && directive_at(b, s) == Some((ps, q)),
    decreases b.len() - from,
{
    if 0 <= from < b.len() {
        match directive_at(b, from) {
            Some((ps, q)) => {
                lemma_skip_ws(b, from + 1);
                let j = skip_ws(b, from + 1);
                lemma_skip_ws(b, j + 7);
            },
            None => lemma_next_directive(b, from + 1),
        }
    }
}

pub proof fn lemma_first_byte(b: Seq<u8>, needle: u8, k: int)
    ensures
        first_byte(b, needle, k) matches Some(q) ==> k <= q < b.len() && b[q] == needle,
    decreases b.len() - k,
{
    if 0 <= k < b.len() && b[k] != needle {
        lemma_first_byte(b, needle, k + 1);
    }
}

pub proof fn lemma_close_quote(b: Seq<u8>, quote: u8, k: int)
    ensures
        close_quote(b, quote, k) matches Some(q) ==> k <= q < b.len() && b[q] == quote,
    decreases b.len() - k,
{
    if 0 <= k < b.len() {
        lemma_first_byte(b, quote, k);
        match first_byte(b, quote, k) {
            None => {},
            Some(q) => if q >= k && backslashes(b, q) % 2 == 1 {
                lemma_close_quote(b, quote, q + 1);
            },
        }
    }
}

pub proof fn lemma_directive_end(b: Seq<u8>, start: int, q: int)
    requires
        0 <= start < b.len(),
        0 <= q < b.len(),
    ensures
        q < directive_end(b, start, q) <= b.len(),
        directive_end(b, start, q) == q + 1 || b[directive_end(b, start, q) - 1] == SEMICOLON,
{
    lemma_skip_ws(b, q + 1);
}

/// The include directives of the source bytes `b` from `from` on, in order.
pub open spec fn includes_from(b: Seq<u8>, from: int) -> Seq<IncludeView>
    decreases b.len() - from,
{
    if from < 0 || from >= b.len() {
        Seq::empty()
    } else {
        match next_directive(b, from) {
            None => Seq::empty(),
            Some((start, ps, quote)) => match close_quote(b, quote, ps) {
                None => Seq::empty(),
                Some(pe) => {
                    proof {
                        lemma_next_directive(b, from);
                        lemma_close_quote(b, quote, ps);
                        lemma_directive_end(b, start, pe);
                    }
                    let end = directive_end(b, start, pe);
                    seq![IncludeView { path: include_path(b, ps, pe, quote), start, end }]
                        + includes_from(b, end)
                },
            },
        }
    }
}

/// The include directives of a module's source bytes, in order.
pub open spec fn parse_includes(b: Seq<u8>) -> Seq<IncludeView> {
    includes_from(b, 0)
}

/// An include directive: the path it names and the bytes of the source it spans.
#[derive(Debug)]
pub struct Include {
    pub path: ModPath,
    pub source_range: Range<usize>,
}

impl Include {
    pub open spec fn view(&self) -> IncludeView {
        IncludeView {
            path: self.path.view(),
            start: self.source_range.start as int,
            end: self.source_range.end as int,
        }
    }
}

pub open spec fn includes_view(v: Seq<Include>) -> Seq<IncludeView> {
    v.map_values(|i: Include| i.view())
}

proof fn lemma_includes_view_push(v: Seq<Include>, i: Include)
    ensures
        includes_view(v.push(i)) == includes_view(v).push(i.view()),
{
    assert(includes_view(v.push(i)) =~= includes_view(v).push(i.view())) by {
        assert forall|k: int| 0 <= k < v.len() + 1 implies includes_view(v.push(i))[k]
            == includes_view(v).push(i.view())[k] by {
            if k < v.len() {
                assert(v.push(i)[k] == v[k]);
            }
        }
    }
}

fn ws_len_exec(b: &[u8], i: usize) -> (n: usize)
    ensures
        n == ws_len(b@, i as int),
{
    let len = b.len();
    if i >= len {
        return 0;
    }
    let x = b[i];
    if (9 <= x && x <= 13) || x == 32 {
        1
    } else if len - i > 1 && x == 0xc2 && (b[i + 1] == 0x85 || b[i + 1] == 0xa0) {
        2
    } else if len - i > 2 && ((x == 0xe1 && b[i + 1] == 0x9a && b[i + 2] == 0x80) || (x == 0xe2
        && b[i + 1] == 0x80 && ((0x80 <= b[i + 2] && b[i + 2] <= 0x8a) || b[i + 2] == 0xa8 || b[i
        + 2] == 0xa9 || b[i + 2] == 0xaf)) || (x == 0xe2 && b[i + 1] == 0x81 && b[i + 2] == 0x9f)
        || (x == 0xe3 && b[i + 1] == 0x80 && b[i + 2] == 0x80)) {
        3
    } else {
        0
    }
}

fn skip_ws_exec(b: &[u8], i: usize) -> (j: usize)
    requires
        i <= b@.len(),
    ensures
        j == skip_ws(b@, i as int),
        i <= j <= b@.len(),
{
    let mut j = i;
    while j < b.len() && ws_len_exec(b, j) > 0
        invariant
            i <= j <= b@.len(),
            skip_ws(b@, j as int) == skip_ws(b@, i as int),
        decreases b@.len() - j,
    {
        j = j + ws_len_exec(b, j);
    }
    j
}

fn directive_at_exec(b: &[u8], p: usize) -> (r: Option<(usize, u8)>)
    requires
        p < b@.len(),
    ensures
        r matches Some((ps, q)) ==> directive_at(b@, p as int) == Some((ps as int, q)),
        r is None ==> directive_at(b@, p as int) is None,
{
    let len = b.len();
    if b[p] != HASH && b[p] != AMPERSAND {
        return None;
    }
    let j = skip_ws_exec(b, p + 1);
    if len < 7 || j > len - 7 {
        return None;
    }
    let word = b[j] == 105u8 && b[j + 1] == 110u8 && b[j + 2] == 99u8 && b[j + 3] == 108u8 && b[j
        + 4] == 117u8 && b[j + 5] == 100u8 && b[j + 6] == 101u8;
    proof {
        if word {
            assert(b@.subrange(j as int, j + 7) =~= include_word());
        } else {
            assert(b@.subrange(j as int, j + 7) != include_word()) by {
                if b@.subrange(j as int, j + 7) == include_word() {
                    assert(b@.subrange(j as int, j + 7)[0] == b@[j as int]);
                    assert(b@.subrange(j as int, j + 7)[1] == b@[j + 1]);
                    assert(b@.subrange(j as int, j + 7)[2] == b@[j + 2]);
                    assert(b@.subrange(j as int, j + 7)[3] == b@[j + 3]);
                    assert(b@.subrange(j as int, j + 7)[4] == b@[j + 4]);
                    assert(b@.subrange(j as int, j + 7)[5] == b@[j + 5]);
                    assert(b@.subrange(j as int, j + 7)[6] == b@[j + 6]);
                }
            }
        }
    }
    if !word {
        return None;
    }
    let k = j + 7;
    if ws_len_exec(b, k) == 0 {
        return None;
    }
    let m = skip_ws_exec(b, k);
    if m < len && (b[m] == DOUBLE_QUOTE || b[m] == SINGLE_QUOTE) {
        Some((m + 1, b[m]))
    } else {
        None
    }
}

fn next_directive_exec(b: &[u8], from: usize) -> (r: Option<(usize, usize, u8)>)
    ensures
        r matches Some((s, ps, q)) ==> next_directive(b@, from as int) == Some(
            (s as int, ps as int, q),
        ),
        r is None ==> next_directive(b@, from as int) is None,
{
    let mut p = from;
    while p < b.len()
        invariant
            from <= p,
            next_directive(b@, p as int) == next_directive(b@, from as int),
        decreases b@.len() - p,
    {
        match directive_at_exec(b, p) {
            Some((ps, q)) => {
                return Some((p, ps, q));
            },
            None => {},
        }
        p = p + 1;
    }
    None
}

proof fn lemma_first_byte_found(b: Seq<u8>, needle: u8, k: int, q: int)
    requires
        0 <= k <= q < b.len(),
        b[q] == needle,
        forall|j: int| k <= j < q ==> b[j] != needle,
    ensures
        first_byte(b, needle, k) == Some(q),
    decreases q - k,
{
    if k < q {
        lemma_first_byte_found(b, needle, k + 1, q);
    }
}

proof fn lemma_first_byte_none(b: Seq<u8>, needle: u8, k: int)
    requires
        0 <= k,
        forall|j: int| k <= j < b.len() ==> b[j] != needle,
    ensures
        first_byte(b, needle, k) is None,
    decreases b.len() - k,
{
    if k < b.len() {
        lemma_first_byte_none(b, needle, k + 1);
    }
}

fn backslashes_exec(b: &[u8], q: usize) -> (n: usize)
    requires
        q <= b@.len(),
    ensures
        n == backslashes(b@, q as int),
{
    let mut n: usize = 0;
    let mut k = q;
    while k > 0 && b[k - 1] == BACKSLASH
        invariant
            k <= q <= b@.len(),
            n + k == q,
            n + backslashes(b@, k as int) == backslashes(b@, q as int),
        decreases k,
    {
        k = k - 1;
        n = n + 1;
    }
    n
}

fn close_quote_exec(b: &[u8], quote: u8, start: usize) -> (r: Option<usize>)
    ensures
        r matches Some(q) ==> close_quote(b@, quote, start as int) == Some(q as int),
        r is None ==> close_quote(b@, quote, start as int) is None,
{
    let len = b.len();
    let mut k = start;
    while k < len
        invariant
            len == b@.len(),
            start <= k,
            close_quote(b@, quote, k as int) == close_quote(b@, quote, start as int),
        decreases len - k,
    {
        let rest = &b[k..len];
        match memchr::memchr(quote, rest) {
            None => {
                proof {
                    assert forall|j: int| k <= j < b@.len() implies b@[j] != quote by {
                        assert(rest@[j - k] == b@[j]);
                    }
                    lemma_first_byte_none(b@, quote, k as int);
                }
                return None;
            },
            Some(i) => {
                let q = k + i;
                proof {
                    assert(rest@[i as int] == b@[q as int]);
                    assert forall|j: int| k <= j < q implies b@[j] != quote by {
                        assert(rest@[j - k] == b@[j]);
                    }
                    lemma_first_byte_found(b@, quote, k as int, q as int);
                }
                let n = backslashes_exec(b, q);
                if n % 2 == 1 {
                    k = q + 1;
                } else {
                    return Some(q);
                }
            },
        }
    }
    None
}

fn directive_end_exec(b: &[u8], start: usize, q: usize) -> (e: usize)
    requires
        start < b@.len(),
        q < b@.len(),
    ensures
        e == directive_end(b@, start as int, q as int),
{
    let len = b.len();
    let m = skip_ws_exec(b, q + 1);
    if b[start] == AMPERSAND && m < b.len() && b[m] == SEMICOLON {
        m + 1
    } else {
        q + 1
    }
}

fn unescape_exec(s: &[u8], c: u8) -> (r: Vec<u8>)
    ensures
        r@ == unescape(s@, c),
{
    let n = s.len();
    let mut out: Vec<u8> = Vec::new();
    let mut i: usize = 0;
    proof {
        assert(s@.skip(0) =~= s@);
        assert(out@ + unescape(s@, c) =~= unescape(s@, c));
    }
    while i < n
        invariant
            n == s@.len(),
            i <= n,
            out@ + unescape(s@.skip(i as int), c) == unescape(s@, c),
        decreases n - i,
    {
        let ghost rest = s@.skip(i as int);
        if i + 1 < n && s[i] == BACKSLASH && s[i + 1] == c {
            proof {
                assert(rest.skip(2) =~= s@.skip(i + 2));
                assert(unescape(rest, c) == seq![c] + unescape(rest.skip(2), c));
                assert(out@.push(c) + unescape(s@.skip(i + 2), c) =~= out@ + unescape(rest, c));
            }
            out.push(c);
            i = i + 2;
        } else {
            proof {
                assert(rest.skip(1) =~= s@.skip(i + 1));
                assert(unescape(rest, c) == seq![s@[i as int]] + unescape(rest.skip(1), c));
                assert(out@.push(s@[i as int]) + unescape(s@.skip(i + 1), c) =~= out@ + unescape(
                    rest,
                    c,
                ));
            }
            out.push(s[i]);
            i = i + 1;
        }
    }
    proof {
        assert(s@.skip(n as int) =~= Seq::<u8>::empty());
        assert(out@ + Seq::<u8>::empty() =~= out@);
    }
    out
}

/// The include directives of the source bytes `b`, in order.
pub fn parse_includes_exec(b: &[u8]) -> (r: Vec<Include>)
    ensures
        includes_view(r@) == parse_includes(b@),
{
    let len = b.len();
    let mut includes: Vec<Include> = Vec::new();
    let mut from: usize = 0;
    proof {
        assert(includes_view(includes@) + includes_from(b@, 0) =~= parse_includes(b@));
    }
    while from < len
        invariant
            len == b@.len(),
            includes_view(includes@) + includes_from(b@, from as int) == parse_includes(b@),
        decreases len - from,
    {
        let found = next_directive_exec(b, from);
        proof {
            lemma_next_directive(b@, from as int);
        }
        match found {
            None => {
                proof {
                    assert(includes_from(b@, from as int) =~= Seq::<IncludeView>::empty());
                    assert(includes_view(includes@) + Seq::<IncludeView>::empty() =~= includes_view(
                        includes@,
                    ));
                }
                return includes;
            },
            Some((start, ps, quote)) => {
                let closing = close_quote_exec(b, quote, ps);
                proof {
                    lemma_close_quote(b@, quote, ps as int);
                }
                match closing {
                    None => {
                        proof {
                            assert(includes_from(b@, from as int) =~= Seq::<IncludeView>::empty());
                            assert(includes_view(includes@) + Seq::<IncludeView>::empty()
                                =~= includes_view(includes@));
                        }
                        return includes;
                    },
                    Some(pe) => {
                        let end = directive_end_exec(b, start, pe);
                        proof {
                            lemma_directive_end(b@, start as int, pe as int);
                        }
                        let raw = &b[ps..pe];
                        let once = unescape_exec(raw, quote);
                        let twice = unescape_exec(once.as_slice(), BACKSLASH);
                        let path = ModPath::parse(twice.as_slice());
                        let inc = Include { path, source_range: start..end };
                        let ghost iv = IncludeView {
                            path: include_path(b@, ps as int, pe as int, quote),
                            start: start as int,
                            end: end as int,
                        };
                        proof {
                            assert(inc.view() == iv);
                            lemma_includes_view_push(includes@, inc);
                            assert(includes_from(b@, from as int) == seq![iv] + includes_from(
                                b@,
                                end as int,
                            ));
                            assert(includes_view(includes@).push(iv) + includes_from(b@, end as int)
                                =~= includes_view(includes@) + (seq![iv] + includes_from(
                                b@,
                                end as int,
                            )));
                        }
                        includes.push(inc);
                        from = end;
                    },
                }
            },
        }
    }
    proof {
        assert(includes_from(b@, from as int) =~= Seq::<IncludeView>::empty());
        assert(includes_view(includes@) + Seq::<IncludeView>::empty() =~= includes_view(
            includes@,
        ));
    }
    includes
}

} // verus!

verus! {

/// The byte that ends a directive: a quote or a semicolon.
pub open spec fn is_closing_byte(x: u8) -> bool {
    x == DOUBLE_QUOTE || x == SINGLE_QUOTE || x == SEMICOLON
}

/// Include directives lie in order and apart within the bytes, from `from` on;
/// each starts with a marker and ends with a closing byte.
pub open spec fn well_placed(b: Seq<u8>, incs: Seq<IncludeView>, from: int) -> bool {
    &&& forall|k: int|
        0 <= k < incs.len() ==> {
            &&& from <= #[trigger] incs[k].start < incs[k].end <= b.len()
            &&& (b[incs[k].start] == HASH || b[incs[k].start] == AMPERSAND)
            &&& is_closing_byte(b[incs[k].end - 1])
        }
    &&& forall|k: int| 0 <= k < incs.len() - 1 ==> #[trigger] incs[k].end <= incs[k + 1].start
}

pub proof fn lemma_includes_well_placed(b: Seq<u8>, from: int)
    ensures
        well_placed(b, includes_from(b, from), from),
    decreases b.len() - from,
{
    if 0 <= from < b.len() {
        lemma_next_directive(b, from);
        match next_directive(b, from) {
            None => {},
            Some((start, ps, quote)) => {
                lemma_close_quote(b, quote, ps);
                match close_quote(b, quote, ps) {
                    None => {},
                    Some(pe) => {
                        lemma_directive_end(b, start, pe);
                        let end = directive_end(b, start, pe);
                        lemma_includes_well_placed(b, end);
                        let rest = includes_from(b, end);
                        let all = includes_from(b, from);
                        assert(all == seq![
                            IncludeView { path: include_path(b, ps, pe, quote), start, end },
                        ] + rest);
                        assert forall|k: int| 0 <= k < all.len() implies {
                            &&& from <= #[trigger] all[k].start < all[k].end <= b.len()
                            &&& (b[all[k].start] == HASH || b[all[k].start] == AMPERSAND)
                            &&& is_closing_byte(b[all[k].end - 1])
                        } by {
                            if k > 0 {
                                assert(all[k] == rest[k - 1]);
                            }
                        }
                        assert forall|k: int| 0 <= k < all.len() - 1 implies #[trigger] all[k].end
                            <= all[k + 1].start by {
                            if k > 0 {
                                assert(all[k] == rest[k - 1]);
                                assert(all[k + 1] == rest[k]);
                            } else {
                                assert(all[1] == rest[0]);
                            }
                        }
                    },
                }
            },
        }
    }
}

proof fn lemma_no_marker_no_directive(b: Seq<u8>, from: int)
    requires
        forall|i: int| 0 <= i < b.len() ==> b[i] != HASH && b[i] != AMPERSAND,
    ensures
        next_directive(b, from) is None,
    decreases b.len() - from,
{
    if 0 <= from < b.len() {
        lemma_no_marker_no_directive(b, from + 1);
    }
}

/// Source bytes without a `#` or an `&` hold no include directive.
pub proof fn law_no_marker_no_includes(b: Seq<u8>)
    requires
        forall|i: int| 0 <= i < b.len() ==> b[i] != HASH && b[i] != AMPERSAND,
    ensures
        parse_includes(b).len() == 0,
{
    lemma_no_marker_no_directive(b, 0);
}

} // verus!
