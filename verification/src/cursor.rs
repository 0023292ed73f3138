use vstd::prelude::*;
use vstd::utf8::encode_utf8;

verus! {

/// The byte `'0'`.
pub const ASCII_ZERO: u8 = 48;

/// The byte `'9'`.
pub const ASCII_NINE: u8 = 57;

/// The byte `'A'`.
pub const ASCII_UPPER_A: u8 = 65;

/// The byte `'Z'`.
pub const ASCII_UPPER_Z: u8 = 90;

/// The byte `'a'`.
pub const ASCII_LOWER_A: u8 = 97;

/// The byte `'z'`.
pub const ASCII_LOWER_Z: u8 = 122;

/// True for the bytes that may form the word under completion: ASCII
/// alphanumerics plus the caller-supplied continuation bytes.
pub open spec fn is_word_byte(b: u8, continuation: Seq<u8>) -> bool {
    ||| ASCII_ZERO <= b <= ASCII_NINE
    ||| ASCII_LOWER_A <= b <= ASCII_LOWER_Z
    ||| ASCII_UPPER_A <= b <= ASCII_UPPER_Z
    ||| continuation.contains(b)
}

/// The maximal suffix of `s` consisting of word bytes.
pub open spec fn word_prefix_of(s: Seq<u8>, continuation: Seq<u8>) -> Seq<u8>
    decreases s.len(),
{
    if s.len() == 0 || !is_word_byte(s.last(), continuation) {
        Seq::empty()
    } else {
        word_prefix_of(s.drop_last(), continuation).push(s.last())
    }
}

/// The word prefix is exactly the suffix of `s` that starts at the first
/// index after which only word bytes follow.
proof fn lemma_word_prefix_suffix(s: Seq<u8>, continuation: Seq<u8>, k: int)
    requires
        0 <= k <= s.len(),
        forall|i: int| k <= i < s.len() ==> is_word_byte(s[i], continuation),
        k > 0 ==> !is_word_byte(s[k - 1], continuation),
    ensures
        word_prefix_of(s, continuation) == s.subrange(k, s.len() as int),
    decreases s.len(),
{
    if s.len() == 0 {
        assert(word_prefix_of(s, continuation) =~= s.subrange(k, s.len() as int));
    } else if k == s.len() {
        assert(!is_word_byte(s.last(), continuation));
        assert(word_prefix_of(s, continuation) =~= s.subrange(k, s.len() as int));
    } else {
        let shorter = s.drop_last();
        assert(is_word_byte(s.last(), continuation));
        assert(forall|i: int| k <= i < shorter.len() ==> is_word_byte(shorter[i], continuation));
        lemma_word_prefix_suffix(shorter, continuation, k);
        assert(shorter.subrange(k, shorter.len() as int).push(s.last()) =~= s.subrange(
            k,
            s.len() as int,
        ));
    }
}

/// Immutable snapshot of the cursor context at one point in time: the line
/// content around the cursor and the cursor's byte offset into it. Built
/// fresh on every relevant editor event and never mutated afterwards.
#[derive(Debug)]
pub struct Cursor {
    /// The content of the line the cursor is on.
    pub line_before_cursor: String,
    /// The byte offset of the cursor within `line_before_cursor`.
    pub byte_offset: usize,
}

impl Cursor {
    /// The UTF-8 bytes of the line the cursor is on. Every offset in this
    /// crate is a byte offset, so multi-byte text stays correct.
    pub open spec fn line_bytes(&self) -> Seq<u8> {
        encode_utf8(self.line_before_cursor@)
    }

    /// The offset never points past the end of the line.
    pub open spec fn wf(&self) -> bool {
        self.byte_offset <= self.line_bytes().len()
    }

    /// The bytes candidates are matched against: the maximal run of word
    /// bytes that ends at the cursor.
    pub open spec fn spec_word_prefix(&self, continuation: Seq<u8>) -> Seq<u8> {
        word_prefix_of(self.line_bytes().take(self.byte_offset as int), continuation)
    }

    /// Builds a snapshot from the current line and the cursor byte offset.
    /// Total: an offset past the end of the line is clamped to the line's
    /// byte length.
    pub fn capture(current_line_text: String, cursor_byte_offset: usize) -> (c: Cursor)
        ensures
            c.line_before_cursor@ == current_line_text@,
            c.wf(),
            c.byte_offset == (if cursor_byte_offset <= encode_utf8(current_line_text@).len() {
                cursor_byte_offset as int
            } else {
                encode_utf8(current_line_text@).len() as int
            }),
    {
        let line_len = current_line_text.as_str().as_bytes().len();
        let byte_offset = if cursor_byte_offset <= line_len {
            cursor_byte_offset
        } else {
            line_len
        };
        Cursor { line_before_cursor: current_line_text, byte_offset }
    }

    /// Returns the in-progress word the user has typed: the maximal run of
    /// word bytes ending at the cursor, empty when the byte before the cursor
    /// is no word byte (a valid state meaning "no active completion
    /// context").
    pub fn word_prefix(&self, continuation: &Vec<u8>) -> (p: Vec<u8>)
        requires
            self.wf(),
        ensures
            p@ == self.spec_word_prefix(continuation@),
            p@.len() <= self.byte_offset,
    {
        let bytes = self.line_before_cursor.as_str().as_bytes();
        let upto = self.byte_offset;
        let mut start: usize = 0;
        let mut i: usize = 0;
        while i < upto
            invariant
                self.wf(),
                bytes@ == self.line_bytes(),
                upto == self.byte_offset,
                0 <= start <= i <= upto <= bytes@.len(),
                forall|j: int| start <= j < i ==> is_word_byte(bytes@[j], continuation@),
                start > 0 ==> !is_word_byte(bytes@[start - 1], continuation@),
            decreases upto - i,
        {
            if !is_word_byte_exec(bytes[i], continuation) {
                start = i + 1;
            }
            i = i + 1;
        }
        let mut p: Vec<u8> = Vec::new();
        let mut j: usize = start;
        while j < upto
            invariant
                bytes@ == self.line_bytes(),
                upto == self.byte_offset,
                0 <= start <= j <= upto <= bytes@.len(),
                p@ == bytes@.subrange(start as int, j as int),
            decreases upto - j,
        {
            p.push(bytes[j]);
            assert(p@ =~= bytes@.subrange(start as int, j + 1 as int));
            j = j + 1;
        }
        proof {
            let s = self.line_bytes().take(upto as int);
            assert(forall|idx: int| start <= idx < s.len() ==> is_word_byte(s[idx], continuation@));
            lemma_word_prefix_suffix(s, continuation@, start as int);
            assert(s.subrange(start as int, s.len() as int) =~= bytes@.subrange(
                start as int,
                upto as int,
            ));
        }
        p
    }
}

/// Executable check of [`is_word_byte`].
fn is_word_byte_exec(b: u8, continuation: &Vec<u8>) -> (r: bool)
    ensures
        r == is_word_byte(b, continuation@),
{
    if (ASCII_ZERO <= b && b <= ASCII_NINE) || (ASCII_LOWER_A <= b && b <= ASCII_LOWER_Z) || (
    ASCII_UPPER_A <= b && b <= ASCII_UPPER_Z) {
        return true;
    }
    let mut i: usize = 0;
    while i < continuation.len()
        invariant
            forall|j: int| 0 <= j < i ==> continuation@[j] != b,
        decreases continuation@.len() - i,
    {
        if continuation[i] == b {
            return true;
        }
        i = i + 1;
    }
    false
}

} // verus!
