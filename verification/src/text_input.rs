use vstd::prelude::*;
use vstd::utf8::{encode_utf8, is_char_boundary};
use crate::utf8_len::{char_width, byte_len, boundary, char_width_exec, lemma_boundary_is_char_boundary, lemma_byte_len_concat, lemma_byte_len_single, lemma_boundary_step, lemma_boundary_strict, lemma_boundary_mono, lemma_boundary_full, lemma_encode_len, lemma_len_le_byte_len};

verus! {

/// A control character: Unicode general category `Cc`.
pub open spec fn is_control(c: char) -> bool {
    (c as u32) <= 0x1f || (0x7f <= (c as u32) && (c as u32) <= 0x9f)
}

/// Whether `insert` puts the character itself into the text.
pub open spec fn inserted_verbatim(c: char) -> bool {
    c == '\n' || c == '\r' || !is_control(c)
}

/// The text that `insert` puts in place of a tab.
pub open spec fn tab_spaces() -> Seq<char> {
    seq![' ', ' ', ' ', ' ']
}

/// Position of the cursor after `delete` removed the char at `i` (of width `w`)
/// from the text: the last char boundary of `t` below `boundary(t, i) + w`.
pub open spec fn cursor_after_delete(t: Seq<char>, i: int, w: nat, k: int) -> bool {
    &&& i <= k <= t.len()
    &&& boundary(t, k) < boundary(t, i) + w
    &&& (k == t.len() || boundary(t, k + 1) >= boundary(t, i) + w)
}

fn is_control_exec(c: char) -> (b: bool)
    ensures
        b == is_control(c),
{
    let v = c as u32;
    v <= 0x1f || (0x7f <= v && v <= 0x9f)
}

/// `String::push`: appends one char.
#[verifier::external_body]
pub(crate) fn string_push(s: &mut String, c: char)
    ensures
        final(s)@ == old(s)@.push(c),
{
    s.push(c)
}

/// Single-line text editing state: a text and a cursor that always stands
/// on a char boundary. The cursor is reported in bytes.
#[derive(Debug)]
pub struct SimpleTextInput {
    text: String,
    curser: usize,
    index: usize,
}

impl SimpleTextInput {
    #[verifier::type_invariant]
    spec fn inv(self) -> bool {
        &&& self.index <= self.text@.len()
        &&& self.curser == boundary(self.text@, self.index as int)
        &&& byte_len(self.text@) <= usize::MAX
    }

    /// The text as chars.
    pub closed spec fn chars(self) -> Seq<char> {
        self.text@
    }

    /// The cursor as a char index.
    pub closed spec fn pos(self) -> nat {
        self.index as nat
    }

    fn build(before: &str, middle: &str, after: &str) -> (s: String)
        ensures
            s@ == before@ + middle@ + after@,
    {
        let mut s = String::new();
        s.append(before);
        s.append(middle);
        s.append(after);
        s
    }

    pub fn new(text: &str) -> (s: Self)
        ensures
            s.chars() == text@,
            s.pos() == 0,
    {
        // the length of a str fits in usize
        let _len = text.as_bytes().len();
        let t = text.to_owned();
        proof {
            lemma_encode_len(text@);
            assert(t@.take(0) =~= Seq::<char>::empty());
        }
        SimpleTextInput { text: t, curser: 0, index: 0 }
    }

    /// Length of the text in bytes.
    pub fn len(&self) -> (n: usize)
        ensures
            n == byte_len(self.chars()),
    {
        proof {
            use_type_invariant(self);
            lemma_encode_len(self.text@);
        }
        self.text.as_str().len()
    }

    /// Byte offset of the cursor.
    pub fn curser(&self) -> (c: usize)
        ensures
            c == boundary(self.chars(), self.pos() as int),
            self.pos() <= self.chars().len(),
            c <= byte_len(self.chars()),
            is_char_boundary(encode_utf8(self.chars()), c as int),
    {
        proof {
            use_type_invariant(self);
            lemma_boundary_mono(self.text@, self.index as int, self.text@.len() as int);
            lemma_boundary_full(self.text@);
            lemma_boundary_is_char_boundary(self.text@, self.index as int);
        }
        self.curser
    }

    pub fn text(&self) -> (t: &str)
        ensures
            t@ == self.chars(),
    {
        self.text.as_str()
    }

    pub fn text_before_curser(&self) -> (t: &str)
        ensures
            t@ == self.chars().take(self.pos() as int),
            self.pos() <= self.chars().len(),
    {
        proof {
            use_type_invariant(self);
        }
        let r = self.text.as_str().substring_char(0, self.index);
        proof {
            assert(r@ =~= self.text@.take(self.index as int));
        }
        r
    }

    pub fn text_after_curser(&self) -> (t: &str)
        ensures
            t@ == self.chars().skip(self.pos() as int),
            self.pos() <= self.chars().len(),
    {
        proof {
            use_type_invariant(self);
        }
        let n = self.text.as_str().unicode_len();
        let r = self.text.as_str().substring_char(self.index, n);
        proof {
            assert(r@ =~= self.text@.skip(self.index as int));
        }
        r
    }

    fn at_end(&self) -> (b: bool)
        ensures
            b == (self.pos() == self.chars().len()),
    {
        proof {
            use_type_invariant(self);
            lemma_encode_len(self.text@);
            lemma_boundary_full(self.text@);
            if self.index < self.text@.len() {
                lemma_boundary_strict(self.text@, self.index as int, self.text@.len() as int);
            }
        }
        self.curser == self.text.as_str().len()
    }

    /// Moves the cursor one char forward, unless it is at the end.
    pub fn advance(&mut self) -> (moved: bool)
        ensures
            final(self).chars() == old(self).chars(),
            moved == (old(self).pos() < old(self).chars().len()),
            final(self).pos() == if moved { old(self).pos() + 1 } else { old(self).pos() },
    {
        proof {
            use_type_invariant(&*self);
        }
        if !self.at_end() {
            let c = self.text.as_str().get_char(self.index);
            let w = char_width_exec(c);
            proof {
                lemma_boundary_step(self.text@, self.index as int);
                lemma_boundary_mono(self.text@, self.index as int + 1, self.text@.len() as int);
                lemma_boundary_full(self.text@);
                lemma_len_le_byte_len(self.text@);
            }
            let t = self.text.clone();
            *self = SimpleTextInput { text: t, curser: self.curser + w, index: self.index + 1 };
            true
        } else {
            false
        }
    }

    /// Places the cursor after `positon` chars (or at the end of a shorter text).
    pub fn set_curser(&mut self, positon: usize) -> (changed: bool)
        ensures
            final(self).chars() == old(self).chars(),
            final(self).pos() == if positon <= old(self).chars().len() {
                positon as nat
            } else {
                old(self).chars().len()
            },
            changed == (final(self).pos() != old(self).pos()),
    {
        proof {
            use_type_invariant(&*self);
        }
        let was = self.curser;
        let ghost old_pos = self.index;
        let t = self.text.clone();
        proof {
            assert(t@.take(0) =~= Seq::<char>::empty());
        }
        *self = SimpleTextInput { text: t, curser: 0, index: 0 };
        let mut i: usize = 0;
        while i < positon
            invariant
                self.chars() == old(self).chars(),
                i <= positon,
                self.pos() == i,
                i <= self.chars().len(),
            ensures
                self.chars() == old(self).chars(),
                self.pos() == if positon <= old(self).chars().len() {
                    positon as nat
                } else {
                    old(self).chars().len()
                },
            decreases positon - i,
        {
            if !self.advance() {
                break;
            }
            i = i + 1;
        }
        proof {
            use_type_invariant(&*self);
            if self.index < old_pos {
                lemma_boundary_strict(self.text@, self.index as int, old_pos as int);
            } else if old_pos < self.index {
                lemma_boundary_strict(self.text@, old_pos as int, self.index as int);
            }
        }
        self.curser != was
    }

    /// Places the cursor at the end of the text.
    pub fn set_curser_end(&mut self) -> (changed: bool)
        ensures
            final(self).chars() == old(self).chars(),
            final(self).pos() == old(self).chars().len(),
            changed == (old(self).pos() != old(self).chars().len()),
    {
        proof {
            use_type_invariant(&*self);
        }
        if !self.at_end() {
            let n = self.text.as_str().len();
            let k = self.text.as_str().unicode_len();
            proof {
                lemma_encode_len(self.text@);
                lemma_boundary_full(self.text@);
            }
            let t = self.text.clone();
            *self = SimpleTextInput { text: t, curser: n, index: k };
            true
        } else {
            false
        }
    }

    /// Moves the cursor one char back, unless it is at the start.
    pub fn recede(&mut self) -> (moved: bool)
        ensures
            final(self).chars() == old(self).chars(),
            moved == (old(self).pos() > 0),
            final(self).pos() == if moved { (old(self).pos() - 1) as nat } else { old(self).pos() },
    {
        proof {
            use_type_invariant(&*self);
        }
        if self.curser != 0 {
            proof {
                if self.index == 0 {
                    assert(self.text@.take(0) =~= Seq::<char>::empty());
                }
            }
            let c = self.text.as_str().get_char(self.index - 1);
            let w = char_width_exec(c);
            proof {
                lemma_boundary_step(self.text@, self.index as int - 1);
            }
            let t = self.text.clone();
            *self = SimpleTextInput { text: t, curser: self.curser - w, index: self.index - 1 };
            true
        } else {
            proof {
                if self.index > 0 {
                    lemma_boundary_strict(self.text@, 0, self.index as int);
                }
            }
            false
        }
    }

    /// Rebuilds the state from a new text and a char index into it.
    fn with_text(t: String, k: usize) -> (s: Self)
        requires
            k <= t@.len(),
            byte_len(t@) <= usize::MAX,
        ensures
            s.chars() == t@,
            s.pos() == k,
    {
        let mut c: usize = 0;
        let mut j: usize = 0;
        proof {
            assert(t@.take(0) =~= Seq::<char>::empty());
        }
        while j < k
            invariant
                j <= k,
                k <= t@.len(),
                byte_len(t@) <= usize::MAX,
                c == boundary(t@, j as int),
            decreases k - j,
        {
            let ch = t.as_str().get_char(j);
            let w = char_width_exec(ch);
            proof {
                lemma_boundary_step(t@, j as int);
                lemma_boundary_mono(t@, j as int + 1, t@.len() as int);
                lemma_boundary_full(t@);
            }
            c = c + w;
            j = j + 1;
        }
        SimpleTextInput { text: t, curser: c, index: k }
    }

    /// Inserts a char at the cursor: newlines, carriage returns and non-control
    /// chars as they are (the cursor moves past them), a tab as four spaces
    /// (the cursor moves past them); other control chars are refused.
    pub fn insert(&mut self, character: char) -> (inserted: bool)
        requires
            byte_len(old(self).chars()) + 4 <= usize::MAX,
        ensures
            inserted == (inserted_verbatim(character) || character == '\t'),
            inserted_verbatim(character) ==> {
                &&& final(self).chars() == old(self).chars().take(old(self).pos() as int)
                    + seq![character] + old(self).chars().skip(old(self).pos() as int)
                &&& final(self).pos() == old(self).pos() + 1
            },
            (!inserted_verbatim(character) && character == '\t') ==> {
                &&& final(self).chars() == old(self).chars().take(old(self).pos() as int)
                    + tab_spaces() + old(self).chars().skip(old(self).pos() as int)
                &&& final(self).pos() == old(self).pos() + 4
            },
            !inserted ==> final(self).chars() == old(self).chars() && final(self).pos()
                == old(self).pos(),
    {
        proof {
            use_type_invariant(&*self);
        }
        let verbatim = character == '\n' || character == '\r' || !is_control_exec(character);
        if verbatim || character == '\t' {
            let n = self.text.as_str().unicode_len();
            let before = self.text.as_str().substring_char(0, self.index);
            let after = self.text.as_str().substring_char(self.index, n);
            let mut s = String::new();
            s.append(before);
            let step: usize;
            if verbatim {
                string_push(&mut s, character);
                step = 1;
            } else {
                let spaces = "    ";
                proof {
                    reveal_strlit("    ");
                }
                s.append(spaces);
                step = 4;
            }
            s.append(after);
            let ghost t = self.text@;
            let ghost mid = if verbatim { seq![character] } else { tab_spaces() };
            proof {
                assert(before@ =~= t.take(self.index as int));
                assert(after@ =~= t.skip(self.index as int));
                assert(s@ =~= t.take(self.index as int) + mid + t.skip(self.index as int));
                assert(t =~= t.take(self.index as int) + t.skip(self.index as int));
                lemma_byte_len_concat(t.take(self.index as int), t.skip(self.index as int));
                lemma_byte_len_concat(t.take(self.index as int) + mid, t.skip(self.index as int));
                lemma_byte_len_concat(t.take(self.index as int), mid);
                if verbatim {
                    lemma_byte_len_single(character);
                } else {
                    assert(byte_len(tab_spaces()) == 4) by {
                        reveal_with_fuel(byte_len, 5);
                    }
                }
            }
            proof {
                lemma_len_le_byte_len(s@);
            }
            let k = self.index + step;
            *self = Self::with_text(s, k);
            true
        } else {
            false
        }
    }

    /// Inserts `text` at the cursor; the cursor keeps its char index.
    pub fn insert_str(&mut self, text: &str)
        requires
            byte_len(old(self).chars()) + byte_len(text@) <= usize::MAX,
        ensures
            final(self).chars() == old(self).chars().take(old(self).pos() as int) + text@
                + old(self).chars().skip(old(self).pos() as int),
            final(self).pos() == old(self).pos(),
    {
        proof {
            use_type_invariant(&*self);
        }
        let n = self.text.as_str().unicode_len();
        let before = self.text.as_str().substring_char(0, self.index);
        let after = self.text.as_str().substring_char(self.index, n);
        let s = Self::build(before, text, after);
        let ghost t = self.text@;
        proof {
            assert(before@ =~= t.take(self.index as int));
            assert(after@ =~= t.skip(self.index as int));
            assert(t =~= t.take(self.index as int) + t.skip(self.index as int));
            lemma_byte_len_concat(t.take(self.index as int), t.skip(self.index as int));
            lemma_byte_len_concat(t.take(self.index as int) + text@, t.skip(self.index as int));
            lemma_byte_len_concat(t.take(self.index as int), text@);
            assert(s@.take(self.index as int) =~= t.take(self.index as int));
        }
        let k = self.index;
        *self = Self::with_text(s, k);
    }

    /// Removes the char before the cursor (backspace).
    pub fn remove(&mut self) -> (removed: bool)
        ensures
            removed == (old(self).pos() > 0),
            removed ==> {
                &&& final(self).chars() == old(self).chars().take(old(self).pos() - 1)
                    + old(self).chars().skip(old(self).pos() as int)
                &&& final(self).pos() == old(self).pos() - 1
            },
            !removed ==> final(self).chars() == old(self).chars() && final(self).pos()
                == old(self).pos(),
    {
        proof {
            use_type_invariant(&*self);
        }
        if self.index != 0 {
            let n = self.text.as_str().unicode_len();
            let before = self.text.as_str().substring_char(0, self.index - 1);
            let after = self.text.as_str().substring_char(self.index, n);
            let s = Self::build(before, "", after);
            let ghost t = self.text@;
            proof {
                reveal_strlit("");
                let i = self.index as int;
                assert(before@ =~= t.take(i - 1));
                assert(after@ =~= t.skip(i));
                assert(t =~= t.take(i - 1) + (t.subrange(i - 1, i) + t.skip(i)));
                lemma_byte_len_concat(t.take(i - 1), t.subrange(i - 1, i) + t.skip(i));
                lemma_byte_len_concat(t.subrange(i - 1, i), t.skip(i));
                lemma_byte_len_concat(t.take(i - 1), t.skip(i));
                assert(s@ =~= t.take(i - 1) + t.skip(i));
            }
            let k = self.index - 1;
            *self = Self::with_text(s, k);
            true
        } else {
            false
        }
    }

    /// Removes the char after the cursor. The cursor then stands on the last
    /// char boundary of the new text below the old end of the removed char.
    pub fn delete(&mut self) -> (deleted: bool)
        ensures
            deleted == (old(self).pos() < old(self).chars().len()),
            deleted ==> {
                &&& final(self).chars() == old(self).chars().take(old(self).pos() as int)
                    + old(self).chars().skip(old(self).pos() + 1int)
                &&& cursor_after_delete(
                    final(self).chars(),
                    old(self).pos() as int,
                    char_width(old(self).chars()[old(self).pos() as int]),
                    final(self).pos() as int,
                )
            },
            !deleted ==> final(self).chars() == old(self).chars() && final(self).pos()
                == old(self).pos(),
    {
        proof {
            use_type_invariant(&*self);
        }
        if !self.at_end() {
            let i = self.index;
            let n = self.text.as_str().unicode_len();
            let c = self.text.as_str().get_char(i);
            let w = char_width_exec(c);
            let before = self.text.as_str().substring_char(0, i);
            let after = self.text.as_str().substring_char(i + 1, n);
            let s = Self::build(before, "", after);
            let ghost t = self.text@;
            proof {
                reveal_strlit("");
                assert(before@ =~= t.take(i as int));
                assert(after@ =~= t.skip(i + 1));
                assert(t =~= t.take(i as int) + (seq![c] + t.skip(i + 1)));
                lemma_byte_len_concat(t.take(i as int), seq![c] + t.skip(i + 1));
                lemma_byte_len_concat(seq![c], t.skip(i + 1));
                lemma_byte_len_concat(t.take(i as int), t.skip(i + 1));
                assert(s@ =~= t.take(i as int) + t.skip(i + 1));
                assert(s@.take(i as int) =~= t.take(i as int));
            }
            // walk forward from the old cursor while the next boundary stays below
            // the old end of the removed char
            let ghost t2 = s@;
            let start = self.curser;
            let limit = start + w;
            let mut k = i;
            let mut cur = start;
            let m = s.as_str().unicode_len();
            proof {
                lemma_boundary_step(t, i as int);
                lemma_boundary_mono(t, i as int + 1, t.len() as int);
                lemma_boundary_full(t);
                lemma_byte_len_concat(t.take(i as int), t.skip(i + 1));
            }
            while k < m
                invariant
                    i <= k <= m,
                    m == t2.len(),
                    t2 == s@,
                    cur == boundary(t2, k as int),
                    cur < limit,
                    limit <= usize::MAX,
                    byte_len(t2) <= usize::MAX,
                    limit == boundary(t2, i as int) + w,
                ensures
                    i <= k <= m,
                    cur == boundary(t2, k as int),
                    cur < limit,
                    k == m || boundary(t2, k + 1) >= limit,
                decreases m - k,
            {
                let ch = s.as_str().get_char(k);
                let cw = char_width_exec(ch);
                proof {
                    lemma_boundary_step(t2, k as int);
                    lemma_boundary_mono(t2, k as int + 1, t2.len() as int);
                    lemma_boundary_full(t2);
                }
                if cur + cw >= limit {
                    break;
                }
                cur = cur + cw;
                k = k + 1;
            }
            proof {
                assert(cursor_after_delete(t2, i as int, w as nat, k as int));
            }
            *self = SimpleTextInput { text: s, curser: cur, index: k };
            true
        } else {
            false
        }
    }
}

/// Removing right after inserting a char that goes in as it is gives the text
/// back, and the cursor where it was.
pub proof fn law_remove_undoes_insert(t: Seq<char>, p: nat, c: char)
    requires
        p <= t.len(),
    ensures
        ({
            let t1 = t.take(p as int) + seq![c] + t.skip(p as int);
            let p1 = p + 1;
            &&& t1.take(p1 - 1) + t1.skip(p1 as int) == t
            &&& p1 - 1 == p
        }),
{
    let t1 = t.take(p as int) + seq![c] + t.skip(p as int);
    assert(t1.take(p as int) =~= t.take(p as int));
    assert(t1.skip(p + 1int) =~= t.skip(p as int));
    assert(t.take(p as int) + t.skip(p as int) =~= t);
}

/// The text before a cursor within the text followed by the text after it is the
/// text, and the bytes before the cursor are as many as the cursor's byte offset.
pub proof fn law_text_split_at_cursor(t: Seq<char>, p: nat)
    requires
        p <= t.len(),
    ensures
        t.take(p as int) + t.skip(p as int) == t,
        encode_utf8(t.take(p as int)).len() == boundary(t, p as int),
{
    assert(t.take(p as int) + t.skip(p as int) =~= t);
    crate::utf8_len::lemma_encode_len(t.take(p as int));
}

/// `insert` takes a newline, a carriage return and every char outside the
/// control chars (U+0000..=U+001F and U+007F..=U+009F) as it is.
pub proof fn law_insert_takes_chars_as_they_are(c: char)
    requires
        c == '\n' || c == '\r' || (0x20 <= (c as u32) && (c as u32) < 0x7f) || 0x9f < (c as u32),
    ensures
        inserted_verbatim(c),
{
}

/// `insert` puts four spaces in place of a tab, and refuses every other control
/// char (U+0000..=U+001F and U+007F..=U+009F, DEL among them) than a newline
/// and a carriage return.
pub proof fn law_insert_refuses_control_chars(c: char)
    requires
        (c as u32) <= 0x1f || (0x7f <= (c as u32) && (c as u32) <= 0x9f),
        c != '\n',
        c != '\r',
    ensures
        !inserted_verbatim(c),
{
}

/// `insert` puts four spaces in place of a tab.
pub proof fn law_tab_is_four_spaces()
    ensures
        !inserted_verbatim('\t'),
        tab_spaces().len() == 4,
        forall|i: int| 0 <= i < 4 ==> tab_spaces()[i] == ' ',
{
}

} // verus!
