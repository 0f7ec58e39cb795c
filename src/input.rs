use vstd::prelude::*;
use vstd::utf8::*;

verus! {

broadcast use {encode_utf8_valid_utf8, encode_utf8_decode_utf8};

/// Number of bytes that the first `k` characters of `s` occupy in UTF-8.
pub open spec fn byte_offset(s: Seq<char>, k: int) -> int {
    encode_utf8(s.subrange(0, k)).len() as int
}

/// Number of characters held by the first `idx` bytes of the UTF-8 encoding
/// of `s`.
pub open spec fn chars_before(s: Seq<char>, idx: int) -> int {
    decode_utf8(encode_utf8(s).subrange(0, idx)).len() as int
}

/// Length in bytes of the UTF-8 encoding of `c`.
pub open spec fn utf8_width(c: char) -> int {
    encode_scalar(c as u32).len() as int
}

/// Length in bytes of the UTF-8 encoding of `s`.
pub open spec fn utf8_len(s: Seq<char>) -> int {
    encode_utf8(s).len() as int
}

/// The abstract content of an input buffer: its characters and the cursor,
/// counted in characters.
pub struct InputView {
    pub text: Seq<char>,
    pub cursor: nat,
}

impl InputView {
    pub open spec fn empty() -> InputView {
        InputView { text: Seq::empty(), cursor: 0 }
    }

    /// `c` typed at the cursor, which moves past it.
    pub open spec fn inserted(self, c: char) -> InputView {
        InputView { text: self.text.insert(self.cursor as int, c), cursor: self.cursor + 1 }
    }

    /// The character before the cursor removed; nothing at the start.
    pub open spec fn deleted(self) -> InputView {
        if self.cursor == 0 {
            self
        } else {
            InputView {
                text: self.text.remove(self.cursor - 1),
                cursor: (self.cursor - 1) as nat,
            }
        }
    }

    pub open spec fn moved_left(self) -> InputView {
        if self.cursor == 0 {
            self
        } else {
            InputView { cursor: (self.cursor - 1) as nat, ..self }
        }
    }

    pub open spec fn moved_right(self) -> InputView {
        if self.cursor >= self.text.len() {
            self
        } else {
            InputView { cursor: self.cursor + 1, ..self }
        }
    }
}

/// Relies on `String::insert`: `c` goes in at byte index `idx`, between the
/// characters before and after it. It panics unless `idx` lies on a char
/// boundary, and a `String` never grows past `isize::MAX` bytes.
#[verifier::external_body]
fn string_insert(s: &mut String, idx: usize, c: char)
    requires
        is_char_boundary(encode_utf8(old(s)@), idx as int),
        utf8_len(old(s)@) + 4 <= isize::MAX,
    ensures
        final(s)@ == old(s)@.insert(chars_before(old(s)@, idx as int), c),
{
    s.insert(idx, c)
}

/// Relies on `String::remove`: it takes out and returns the character that
/// starts at byte index `idx`. It panics unless `idx` is below the length and
/// lies on a char boundary.
#[verifier::external_body]
fn string_remove(s: &mut String, idx: usize) -> (r: char)
    requires
        idx < utf8_len(old(s)@),
        is_char_boundary(encode_utf8(old(s)@), idx as int),
    ensures
        r == old(s)@[chars_before(old(s)@, idx as int)],
        final(s)@ == old(s)@.remove(chars_before(old(s)@, idx as int)),
{
    s.remove(idx)
}

pub proof fn lemma_width_bounds(c: char)
    ensures
        1 <= utf8_width(c) <= 4,
{
    char_is_scalar(c);
}

pub proof fn lemma_encode_concat(a: Seq<char>, b: Seq<char>)
    ensures
        encode_utf8(a + b) == encode_utf8(a) + encode_utf8(b),
    decreases a.len(),
{
    if a.len() == 0 {
        assert(a + b =~= b);
        assert(encode_utf8(a) + encode_utf8(b) =~= encode_utf8(b));
    } else {
        let ab = a + b;
        assert(ab[0] == a[0]);
        assert(ab.drop_first() =~= a.drop_first() + b);
        lemma_encode_concat(a.drop_first(), b);
        assert(encode_utf8(ab) =~= encode_utf8(a) + encode_utf8(b));
    }
}

proof fn lemma_encode_single(c: char)
    ensures
        encode_utf8(seq![c]) == encode_scalar(c as u32),
{
    let e = Seq::<char>::empty();
    assert(seq![c].drop_first() =~= e);
    assert(seq![c][0] == c);
    assert(encode_utf8(e) == Seq::<u8>::empty());
    assert(encode_utf8(seq![c]) =~= encode_scalar(c as u32));
}

/// The encoding of a sequence split around one character.
proof fn lemma_encode_around(a: Seq<char>, c: char, b: Seq<char>)
    ensures
        encode_utf8(a + seq![c] + b) == encode_utf8(a) + encode_scalar(c as u32) + encode_utf8(b),
{
    lemma_encode_concat(a + seq![c], b);
    lemma_encode_concat(a, seq![c]);
    lemma_encode_single(c);
}

pub proof fn lemma_encode_len_ge(s: Seq<char>)
    ensures
        utf8_len(s) >= s.len(),
    decreases s.len(),
{
    if s.len() > 0 {
        lemma_width_bounds(s[0]);
        lemma_encode_len_ge(s.drop_first());
    }
}

/// The encoding of `s` is the encoding of its first `k` characters followed
/// by that of the rest.
pub proof fn lemma_prefix_split(s: Seq<char>, k: int)
    requires
        0 <= k <= s.len(),
    ensures
        encode_utf8(s) == encode_utf8(s.subrange(0, k)) + encode_utf8(s.subrange(k, s.len() as int)),
        0 <= byte_offset(s, k) <= utf8_len(s),
        encode_utf8(s).subrange(0, byte_offset(s, k)) == encode_utf8(s.subrange(0, k)),
        chars_before(s, byte_offset(s, k)) == k,
        k <= byte_offset(s, k),
{
    assert(s =~= s.subrange(0, k) + s.subrange(k, s.len() as int));
    lemma_encode_concat(s.subrange(0, k), s.subrange(k, s.len() as int));
    assert(encode_utf8(s).subrange(0, byte_offset(s, k)) =~= encode_utf8(s.subrange(0, k)));
    lemma_encode_len_ge(s.subrange(0, k));
}

pub proof fn lemma_offset_step(s: Seq<char>, k: int)
    requires
        0 <= k < s.len(),
    ensures
        byte_offset(s, k + 1) == byte_offset(s, k) + utf8_width(s[k]),
{
    assert(s.subrange(0, k + 1) =~= s.subrange(0, k) + seq![s[k]]);
    lemma_encode_concat(s.subrange(0, k), seq![s[k]]);
    lemma_encode_single(s[k]);
}

/// Peeling the first character off `s` shifts every offset by its width.
proof fn lemma_offset_tail(s: Seq<char>, k: int)
    requires
        0 < k <= s.len(),
    ensures
        byte_offset(s, k) == utf8_width(s[0]) + byte_offset(s.drop_first(), k - 1),
        pop_first_scalar(encode_utf8(s)) == encode_utf8(s.drop_first()),
        length_of_first_scalar(encode_utf8(s)) == utf8_width(s[0]),
        valid_first_scalar(encode_utf8(s)),
{
    let p = s.subrange(0, k);
    assert(p[0] == s[0]);
    assert(p.drop_first() =~= s.drop_first().subrange(0, k - 1));
    encode_utf8_first_scalar(s);
    assert(pop_first_scalar(encode_utf8(s)) =~= encode_utf8(s.drop_first()));
}

/// The byte offset of every character position is a char boundary.
pub proof fn lemma_offset_is_boundary(s: Seq<char>, k: int)
    requires
        0 <= k <= s.len(),
    ensures
        is_char_boundary(encode_utf8(s), byte_offset(s, k)),
    decreases k,
{
    if k == 0 {
        assert(s.subrange(0, 0) =~= Seq::<char>::empty());
    } else {
        lemma_offset_tail(s, k);
        lemma_width_bounds(s[0]);
        lemma_prefix_split(s, k);
        lemma_offset_is_boundary(s.drop_first(), k - 1);
    }
}

/// No byte strictly inside the encoding of one character is a char boundary.
pub proof fn lemma_inside_not_boundary(s: Seq<char>, k: int, j: int)
    requires
        0 <= k < s.len(),
        byte_offset(s, k) < j < byte_offset(s, k + 1),
    ensures
        !is_char_boundary(encode_utf8(s), j),
    decreases k,
{
    lemma_offset_tail(s, k + 1);
    lemma_width_bounds(s[0]);
    lemma_prefix_split(s, k + 1);
    let w0 = utf8_width(s[0]);
    let tail = encode_utf8(s.drop_first());
    if k == 0 {
        assert(s.subrange(0, 0) =~= Seq::<char>::empty());
        assert(j - w0 < 0);
        assert(!is_char_boundary(tail, j - w0));
    } else {
        lemma_offset_tail(s, k);
        lemma_inside_not_boundary(s.drop_first(), k - 1, j - w0);
    }
    assert(is_char_boundary(encode_utf8(s), j) == is_char_boundary(tail, j - w0));
}

proof fn lemma_insert_len(s: Seq<char>, k: int, c: char)
    requires
        0 <= k <= s.len(),
    ensures
        utf8_len(s.insert(k, c)) == utf8_len(s) + utf8_width(c),
        s.insert(k, c).subrange(0, k + 1) == s.subrange(0, k) + seq![c],
{
    let a = s.subrange(0, k);
    let b = s.subrange(k, s.len() as int);
    assert(s.insert(k, c) =~= a + seq![c] + b);
    assert(s.insert(k, c).subrange(0, k + 1) =~= a + seq![c]);
    lemma_encode_around(a, c, b);
    lemma_prefix_split(s, k);
}

proof fn lemma_remove_len(s: Seq<char>, k: int)
    requires
        0 <= k < s.len(),
    ensures
        utf8_len(s.remove(k)) + utf8_width(s[k]) == utf8_len(s),
        s.remove(k).subrange(0, k) == s.subrange(0, k),
{
    let a = s.subrange(0, k);
    let b = s.subrange(k + 1, s.len() as int);
    assert(s =~= a + seq![s[k]] + b);
    assert(s.remove(k) =~= a + b);
    assert(s.remove(k).subrange(0, k) =~= a);
    lemma_encode_around(a, s[k], b);
    lemma_encode_concat(a, b);
}

/// Length in bytes of the UTF-8 encoding of `c`, as `char::len_utf8` gives it.
pub fn char_width(c: char) -> (r: usize)
    ensures
        r == utf8_width(c),
{
    proof {
        char_is_scalar(c);
    }
    let v = c as u32;
    if v <= 0x7F {
        1
    } else if v <= 0x7FF {
        2
    } else if v <= 0xFFFF {
        3
    } else {
        4
    }
}

/// A single-line text buffer with an insertion point kept both as a byte
/// index and as a character index.
pub struct InputBuffer {
    text: String,
    byte_pos: usize,
    char_pos: usize,
}

impl View for InputBuffer {
    type V = InputView;

    closed spec fn view(&self) -> InputView {
        InputView { text: self.text@, cursor: self.char_pos as nat }
    }
}

impl InputBuffer {
    /// The byte index sits on the boundary after exactly `char_pos`
    /// characters, and the encoded text fits in memory.
    pub closed spec fn wf(&self) -> bool {
        &&& self.char_pos <= self.text@.len()
        &&& self.byte_pos == byte_offset(self.text@, self.char_pos as int)
        &&& utf8_len(self.text@) <= usize::MAX
    }

    pub fn new() -> (r: InputBuffer)
        ensures
            r.wf(),
            r@ == InputView::empty(),
    {
        let r = InputBuffer { text: String::new(), byte_pos: 0, char_pos: 0 };
        proof {
            assert(r.text@.subrange(0, 0) =~= Seq::<char>::empty());
        }
        r
    }

    /// The text typed so far.
    pub fn text(&self) -> (r: &str)
        ensures
            r@ == self@.text,
    {
        self.text.as_str()
    }

    /// A copy of the text typed so far.
    pub fn contents(&self) -> (r: String)
        ensures
            r@ == self@.text,
    {
        self.text.clone()
    }

    /// The insertion point counted in characters.
    pub fn char_pos(&self) -> (r: usize)
        ensures
            r == self@.cursor,
    {
        self.char_pos
    }

    /// The insertion point counted in bytes: always a char boundary of the
    /// text, with exactly `char_pos` characters before it.
    pub fn byte_pos(&self) -> (r: usize)
        requires
            self.wf(),
        ensures
            r == byte_offset(self@.text, self@.cursor as int),
            is_char_boundary(encode_utf8(self@.text), r as int),
            chars_before(self@.text, r as int) == self@.cursor,
    {
        proof {
            lemma_offset_is_boundary(self.text@, self.char_pos as int);
            lemma_prefix_split(self.text@, self.char_pos as int);
        }
        self.byte_pos
    }

    /// Length of the text in bytes.
    pub fn byte_len(&self) -> (r: usize)
        requires
            self.wf(),
        ensures
            r == utf8_len(self@.text),
    {
        self.text.as_str().len()
    }

    /// Inserts `c` at the cursor and moves the cursor past it.
    pub fn insert_char(&mut self, c: char)
        requires
            old(self).wf(),
            utf8_len(old(self)@.text) + 4 <= isize::MAX,
        ensures
            final(self).wf(),
            final(self)@ == old(self)@.inserted(c),
    {
        let ghost s = self.text@;
        let ghost k = self.char_pos as int;
        proof {
            lemma_offset_is_boundary(s, k);
            lemma_prefix_split(s, k);
            lemma_insert_len(s, k, c);
            lemma_width_bounds(c);
        }
        string_insert(&mut self.text, self.byte_pos, c);
        proof {
            let t = self.text@;
            lemma_encode_concat(s.subrange(0, k), seq![c]);
            lemma_encode_single(c);
            assert(t.subrange(0, k + 1) == s.subrange(0, k) + seq![c]);
        }
        self.byte_pos = self.byte_pos + char_width(c);
        self.char_pos = self.char_pos + 1;
    }

    /// Byte index of the character boundary just before the cursor, found by
    /// scanning back at most four bytes.
    fn boundary_before(&self) -> (r: usize)
        requires
            self.wf(),
            self.char_pos > 0,
        ensures
            r == byte_offset(self@.text, self@.cursor - 1),
    {
        let ghost s = self.text@;
        let ghost k = self.char_pos as int;
        let ghost target = byte_offset(s, k - 1);
        proof {
            lemma_offset_step(s, k - 1);
            lemma_width_bounds(s[k - 1]);
            lemma_prefix_split(s, k - 1);
        }
        let mut i: usize = 1;
        while !self.text.as_str().is_char_boundary(self.byte_pos - i)
            invariant
                self.wf(),
                s == self.text@,
                k == self.char_pos,
                0 < k <= s.len(),
                target == byte_offset(s, k - 1),
                self.byte_pos == target + utf8_width(s[k - 1]),
                0 <= target,
                1 <= i <= utf8_width(s[k - 1]) <= 4,
            decreases utf8_width(s[k - 1]) - i,
        {
            proof {
                lemma_offset_is_boundary(s, k - 1);
            }
            i = i + 1;
        }
        proof {
            if self.byte_pos - i > target {
                lemma_inside_not_boundary(s, k - 1, self.byte_pos - i);
            }
        }
        self.byte_pos - i
    }

    /// Byte index of the character boundary just after the cursor, found by
    /// scanning forward at most four bytes.
    fn boundary_after(&self) -> (r: usize)
        requires
            self.wf(),
            self.char_pos < self@.text.len(),
        ensures
            r == byte_offset(self@.text, self@.cursor as int + 1),
    {
        let ghost s = self.text@;
        let ghost k = self.char_pos as int;
        let ghost target = byte_offset(s, k + 1);
        proof {
            lemma_offset_step(s, k);
            lemma_width_bounds(s[k]);
            lemma_prefix_split(s, k + 1);
        }
        let mut i: usize = 1;
        while !self.text.as_str().is_char_boundary(self.byte_pos + i)
            invariant
                self.wf(),
                s == self.text@,
                k == self.char_pos,
                0 <= k < s.len(),
                target == self.byte_pos + utf8_width(s[k]),
                target <= utf8_len(s),
                target == byte_offset(s, k + 1),
                1 <= i <= utf8_width(s[k]) <= 4,
            decreases utf8_width(s[k]) - i,
        {
            proof {
                lemma_offset_is_boundary(s, k + 1);
            }
            i = i + 1;
        }
        proof {
            if self.byte_pos + i < target {
                lemma_inside_not_boundary(s, k, self.byte_pos + i);
            }
        }
        self.byte_pos + i
    }

    /// Removes the character before the cursor; nothing happens at the start
    /// of the text.
    pub fn delete_before_cursor(&mut self)
        requires
            old(self).wf(),
        ensures
            final(self).wf(),
            final(self)@ == old(self)@.deleted(),
    {
        if self.byte_pos > 0 {
            let ghost s = self.text@;
            let ghost k = self.char_pos as int;
            proof {
                if k == 0 {
                    assert(s.subrange(0, 0) =~= Seq::<char>::empty());
                }
            }
            let pos = self.boundary_before();
            proof {
                lemma_offset_is_boundary(s, k - 1);
                lemma_prefix_split(s, k - 1);
                lemma_offset_step(s, k - 1);
                lemma_prefix_split(s, k);
                lemma_width_bounds(s[k - 1]);
                lemma_remove_len(s, k - 1);
            }
            string_remove(&mut self.text, pos);
            self.byte_pos = pos;
            self.char_pos = self.char_pos - 1;
        } else {
            proof {
                lemma_prefix_split(self.text@, self.char_pos as int);
            }
        }
    }

    /// Moves the cursor one character left; nothing happens at the start.
    pub fn move_left(&mut self)
        requires
            old(self).wf(),
        ensures
            final(self).wf(),
            final(self)@ == old(self)@.moved_left(),
    {
        if self.byte_pos > 0 {
            proof {
                if self.char_pos == 0 {
                    assert(self.text@.subrange(0, 0) =~= Seq::<char>::empty());
                }
            }
            let pos = self.boundary_before();
            self.byte_pos = pos;
            self.char_pos = self.char_pos - 1;
        } else {
            proof {
                lemma_prefix_split(self.text@, self.char_pos as int);
            }
        }
    }

    /// Moves the cursor one character right; nothing happens at the end.
    pub fn move_right(&mut self)
        requires
            old(self).wf(),
        ensures
            final(self).wf(),
            final(self)@ == old(self)@.moved_right(),
    {
        proof {
            lemma_prefix_split(self.text@, self.char_pos as int);
            assert(self.text@.subrange(0, self.text@.len() as int) =~= self.text@);
        }
        if self.byte_pos < self.text.as_str().len() {
            let pos = self.boundary_after();
            self.byte_pos = pos;
            self.char_pos = self.char_pos + 1;
        }
    }

    /// Empties the buffer and puts the cursor back at the start.
    pub fn clear(&mut self)
        ensures
            final(self).wf(),
            final(self)@ == InputView::empty(),
    {
        *self = InputBuffer::new();
    }
}

} // verus!
