//! A growing UTF-8 text buffer that knows its byte length.

use vstd::prelude::*;
use vstd::utf8::*;

verus! {

/// Number of bytes in the UTF-8 encoding of `s`.
pub open spec fn byte_len(s: Seq<char>) -> nat {
    encode_utf8(s).len()
}

/// `s` ends in two newlines.
pub open spec fn ends_in_blank_line(s: Seq<char>) -> bool {
    s.len() >= 2 && s[s.len() - 1] == '\n' && s[s.len() - 2] == '\n'
}

/// Encoding a concatenation encodes each part in turn.
pub proof fn lemma_encode_concat(a: Seq<char>, b: Seq<char>)
    ensures
        encode_utf8(a + b) == encode_utf8(a) + encode_utf8(b),
    decreases a.len(),
{
    if a.len() == 0 {
        assert(a + b =~= b);
        assert(encode_utf8(a) =~= Seq::<u8>::empty());
        assert(encode_utf8(a) + encode_utf8(b) =~= encode_utf8(b));
    } else {
        assert((a + b).drop_first() =~= a.drop_first() + b);
        assert((a + b)[0] == a[0]);
        lemma_encode_concat(a.drop_first(), b);
        assert(encode_utf8(a + b) =~= encode_utf8(a) + encode_utf8(b));
    }
}

proof fn lemma_low_bits(v: u32)
    requires
        v <= 0x7f,
    ensures
        (v & 0x7f) as u8 == v as u8,
{
    assert((v & 0x7f) == v) by (bit_vector)
        requires
            v <= 0x7f,
    ;
}

/// A character below 128 is encoded as the single byte of its code.
pub proof fn lemma_encode_ascii(c: char)
    requires
        (c as u32) < 128,
    ensures
        encode_utf8(seq![c]) == seq![(c as u32) as u8],
{
    let s = seq![c];
    assert(s.drop_first() =~= Seq::<char>::empty());
    assert(encode_utf8(s.drop_first()) =~= Seq::<u8>::empty());
    lemma_low_bits(c as u32);
    assert(encode_utf8(s) =~= seq![(c as u32) as u8]);
}

proof fn lemma_continuation_not_newline(v: u32)
    ensures
        (0x80 | (v & 0x3F) as u8) != 10u8,
{
    assert((0x80 | (v & 0x3F) as u8) != 10u8) by (bit_vector);
}

/// The encoding of `s` ends in the newline byte exactly when `s` ends in a newline.
pub proof fn lemma_last_byte_newline(s: Seq<char>)
    requires
        s.len() > 0,
    ensures
        encode_utf8(s).len() > 0,
        (encode_utf8(s).last() == 10u8) <==> (s.last() == '\n'),
{
    let init = s.drop_last();
    let c = s.last();
    assert(s =~= init + seq![c]);
    lemma_encode_concat(init, seq![c]);
    let tail = seq![c].drop_first();
    assert(tail =~= Seq::<char>::empty());
    assert(encode_utf8(tail) =~= Seq::<u8>::empty());
    let v = c as u32;
    char_is_scalar(c);
    assert(encode_utf8(seq![c]) =~= encode_scalar(v));
    if has_width_1_encoding(v) {
        lemma_low_bits(v);
        if v == 10 {
            char_u32_cast(c, v);
            char_u32_cast('\n', 10u32);
        }
    } else {
        lemma_continuation_not_newline(v);
    }
}

/// Relies on `String::from_utf8`: valid UTF-8 bytes are taken as they are.
#[verifier::external_body]
fn string_from_utf8(bytes: Vec<u8>) -> (r: String)
    requires
        valid_utf8(bytes@),
    ensures
        r@ == decode_utf8(bytes@),
{
    match String::from_utf8(bytes) {
        Ok(s) => s,
        Err(_) => String::new(),
    }
}

/// `b` is a character boundary of `t`: the byte length of some prefix of it.
pub open spec fn on_boundary(t: Seq<char>, b: int) -> bool {
    exists|k: int| 0 <= k <= t.len() && #[trigger] byte_len(t.subrange(0, k)) == b
}

/// `a` is a prefix of `b`.
pub open spec fn is_prefix(a: Seq<char>, b: Seq<char>) -> bool {
    a.len() <= b.len() && b.subrange(0, a.len() as int) == a
}

pub proof fn lemma_prefix_trans(a: Seq<char>, b: Seq<char>, c: Seq<char>)
    requires
        is_prefix(a, b),
        is_prefix(b, c),
    ensures
        is_prefix(a, c),
{
    assert(c.subrange(0, a.len() as int) =~= c.subrange(0, b.len() as int).subrange(0, a.len() as int));
}

pub proof fn lemma_prefix_refl(a: Seq<char>)
    ensures
        is_prefix(a, a),
{
    assert(a.subrange(0, a.len() as int) =~= a);
}

pub proof fn lemma_prefix_append(a: Seq<char>, x: Seq<char>)
    ensures
        is_prefix(a, a + x),
{
    assert((a + x).subrange(0, a.len() as int) =~= a);
}

/// A prefix is no longer in bytes, and its boundaries stay boundaries.
pub proof fn lemma_prefix_grow(a: Seq<char>, b: Seq<char>)
    requires
        is_prefix(a, b),
    ensures
        byte_len(a) <= byte_len(b),
        forall|x: int| on_boundary(a, x) ==> #[trigger] on_boundary(b, x),
        on_boundary(b, byte_len(a) as int),
        on_boundary(b, byte_len(b) as int),
{
    let rest = b.subrange(a.len() as int, b.len() as int);
    assert(b =~= a + rest);
    lemma_encode_concat(a, rest);
    assert(b.subrange(0, a.len() as int) == a);
    assert(b.subrange(0, b.len() as int) =~= b);
    assert(byte_len(b.subrange(0, a.len() as int)) == byte_len(a));
    assert(byte_len(b.subrange(0, b.len() as int)) == byte_len(b));
    assert forall|x: int| on_boundary(a, x) implies #[trigger] on_boundary(b, x) by {
        let k = choose|k: int| 0 <= k <= a.len() && #[trigger] byte_len(a.subrange(0, k)) == x;
        assert(b.subrange(0, k) =~= a.subrange(0, k));
        assert(byte_len(b.subrange(0, k)) == x);
    }
}

/// A character boundary of an encoding is the byte length of a prefix.
pub proof fn lemma_boundary_encode(c: Seq<char>, i: int)
    requires
        is_char_boundary(encode_utf8(c), i),
    ensures
        on_boundary(c, i),
    decreases c.len(),
{
    encode_utf8_valid_utf8(c);
    let bytes = encode_utf8(c);
    if i == 0 {
        assert(c.subrange(0, 0) =~= Seq::<char>::empty());
        assert(encode_utf8(Seq::<char>::empty()) =~= Seq::<u8>::empty());
        assert(byte_len(c.subrange(0, 0)) == 0);
    } else {
        if c.len() == 0 {
            assert(bytes =~= Seq::<u8>::empty());
        } else {
            encode_utf8_first_scalar(c);
            let rest = c.drop_first();
            let first = seq![c[0]];
            assert(c =~= first + rest);
            lemma_encode_concat(first, rest);
            assert(first.drop_first() =~= Seq::<char>::empty());
            assert(encode_utf8(first.drop_first()) =~= Seq::<u8>::empty());
            assert(encode_utf8(first) =~= encode_scalar(c[0] as u32));
            let len0 = encode_scalar(c[0] as u32).len() as int;
            assert(pop_first_scalar(bytes) =~= encode_utf8(rest));
            lemma_boundary_encode(rest, i - len0);
            let k = choose|k: int| 0 <= k <= rest.len() && #[trigger] byte_len(rest.subrange(0, k)) == i - len0;
            assert(c.subrange(0, k + 1) =~= first + rest.subrange(0, k));
            lemma_encode_concat(first, rest.subrange(0, k));
            assert(byte_len(c.subrange(0, k + 1)) == i);
        }
    }
}

/// A boundary of `c` moved past `a` is a boundary of `a + c`.
pub proof fn lemma_boundary_shift(a: Seq<char>, c: Seq<char>, i: int)
    requires
        on_boundary(c, i),
    ensures
        on_boundary(a + c, byte_len(a) + i),
{
    let k = choose|k: int| 0 <= k <= c.len() && #[trigger] byte_len(c.subrange(0, k)) == i;
    assert((a + c).subrange(0, a.len() + k) =~= a + c.subrange(0, k));
    lemma_encode_concat(a, c.subrange(0, k));
    assert(byte_len((a + c).subrange(0, a.len() + k)) == byte_len(a) + i);
}

/// Text under construction: its bytes, and the characters they encode.
pub struct TextBuf {
    pub bytes: Vec<u8>,
    pub chars: Ghost<Seq<char>>,
}

impl TextBuf {
    pub open spec fn wf(&self) -> bool {
        self.bytes@ == encode_utf8(self.chars@)
    }

    pub fn new() -> (r: TextBuf)
        ensures
            r.wf(),
            r.chars@ == Seq::<char>::empty(),
    {
        let r = TextBuf { bytes: Vec::new(), chars: Ghost(Seq::empty()) };
        assert(encode_utf8(Seq::<char>::empty()) =~= Seq::<u8>::empty());
        r
    }

    /// Byte length of the text so far.
    pub fn len(&self) -> (r: usize)
        requires
            self.wf(),
        ensures
            r == byte_len(self.chars@),
    {
        self.bytes.len()
    }

    pub fn is_empty(&self) -> (r: bool)
        requires
            self.wf(),
        ensures
            r == (self.chars@.len() == 0),
    {
        proof {
            if self.chars@.len() > 0 {
                lemma_last_byte_newline(self.chars@);
            } else {
                assert(encode_utf8(self.chars@) =~= Seq::<u8>::empty());
            }
        }
        self.bytes.len() == 0
    }

    pub fn ends_with_newline(&self) -> (r: bool)
        requires
            self.wf(),
        ensures
            r == (self.chars@.len() > 0 && self.chars@.last() == '\n'),
    {
        let n = self.bytes.len();
        proof {
            if self.chars@.len() > 0 {
                lemma_last_byte_newline(self.chars@);
            } else {
                assert(encode_utf8(self.chars@) =~= Seq::<u8>::empty());
            }
        }
        n > 0 && self.bytes[n - 1] == 10u8
    }

    /// Whether the text ends in a blank line: two newlines.
    pub fn ends_with_blank_line(&self) -> (r: bool)
        requires
            self.wf(),
        ensures
            r == ends_in_blank_line(self.chars@),
    {
        let n = self.bytes.len();
        proof {
            let s = self.chars@;
            if s.len() > 0 {
                lemma_last_byte_newline(s);
                let init = s.drop_last();
                let c = s.last();
                assert(s =~= init + seq![c]);
                lemma_encode_concat(init, seq![c]);
                if c == '\n' {
                    lemma_encode_ascii(c);
                    assert(encode_utf8(seq![c]) =~= seq![10u8]);
                    if init.len() > 0 {
                        lemma_last_byte_newline(init);
                        assert(self.bytes@[n - 2] == encode_utf8(init).last());
                        assert(init.last() == s[s.len() - 2]);
                    } else {
                        assert(encode_utf8(init) =~= Seq::<u8>::empty());
                    }
                }
            } else {
                assert(encode_utf8(s) =~= Seq::<u8>::empty());
            }
        }
        n >= 2 && self.bytes[n - 1] == 10u8 && self.bytes[n - 2] == 10u8
    }

    pub fn push_str(&mut self, s: &str)
        requires
            old(self).wf(),
        ensures
            final(self).wf(),
            final(self).chars@ == old(self).chars@ + s@,
            byte_len(final(self).chars@) == byte_len(old(self).chars@) + byte_len(s@),
            is_prefix(old(self).chars@, final(self).chars@),
    {
        proof {
            lemma_prefix_append(self.chars@, s@);
        }
        let b = s.as_bytes();
        let ghost start = self.bytes@;
        let mut i: usize = 0;
        while i < b.len()
            invariant
                b@ == encode_utf8(s@),
                start == encode_utf8(self.chars@),
                self.chars@ == old(self).chars@,
                self.bytes@ == start + b@.subrange(0, i as int),
                i <= b@.len(),
            decreases b@.len() - i,
        {
            self.bytes.push(b[i]);
            i = i + 1;
            assert(self.bytes@ =~= start + b@.subrange(0, i as int));
        }
        assert(b@.subrange(0, i as int) =~= b@);
        proof {
            lemma_encode_concat(self.chars@, s@);
        }
        self.chars = Ghost(self.chars@ + s@);
    }

    /// The text as a `String`.
    pub fn into_string(self) -> (r: String)
        requires
            self.wf(),
        ensures
            r@ == self.chars@,
    {
        proof {
            encode_utf8_valid_utf8(self.chars@);
            encode_utf8_decode_utf8(self.chars@);
        }
        string_from_utf8(self.bytes)
    }

    /// Appends one character below 128.
    pub fn push_ascii(&mut self, c: char)
        requires
            old(self).wf(),
            (c as u32) < 128,
        ensures
            final(self).wf(),
            final(self).chars@ == old(self).chars@.push(c),
            byte_len(final(self).chars@) == byte_len(old(self).chars@) + 1,
            is_prefix(old(self).chars@, final(self).chars@),
    {
        proof {
            lemma_prefix_append(self.chars@, seq![c]);
            assert(self.chars@.push(c) =~= self.chars@ + seq![c]);
        }
        proof {
            lemma_encode_ascii(c);
            lemma_encode_concat(self.chars@, seq![c]);
            assert(self.chars@.push(c) =~= self.chars@ + seq![c]);
        }
        self.bytes.push(c as u8);
        self.chars = Ghost(self.chars@.push(c));
        assert(self.bytes@ =~= encode_utf8(self.chars@));
    }
}

} // verus!
