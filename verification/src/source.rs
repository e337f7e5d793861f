//! Source files and locations inside them.

use crate::shared::share;
use crate::span::SourceSpan;
use std::sync::Arc;
use crate::text::{
    byte_len, byte_offset, chars_of, is_char_offset, lemma_byte_len_encode, lemma_byte_offset_monotone,
    lemma_byte_offset_step, len_utf8, nat_decimal, push_char, push_decimal, string_from_chars,
};
use vstd::prelude::*;

verus! {

/// A named source text. Besides the text it keeps its characters and the byte
/// offset of every character boundary, so that byte spans can be mapped back
/// to characters.
pub struct SourceFile {
    inner: Arc<SourceFileInner>,
}

struct SourceFileInner {
    path: String,
    content: String,
    chars: Vec<char>,
    offsets: Vec<usize>,
}

impl SourceFileInner {
    #[verifier::type_invariant]
    spec fn wf(&self) -> bool {
        &&& self.chars@ == self.content@
        &&& self.offsets@.len() == self.chars@.len() + 1
        &&& byte_len(self.chars@) <= isize::MAX
        &&& forall|k: int|
            0 <= k < self.offsets@.len() ==> #[trigger] self.offsets@[k] == byte_offset(
                self.chars@,
                k,
            )
    }
}

impl SourceFile {
    /// The text of the file.
    pub closed spec fn text(&self) -> Seq<char> {
        self.inner.content@
    }

    /// The path of the file.
    pub closed spec fn file_path(&self) -> Seq<char> {
        self.inner.path@
    }

    /// Builds the file; its text is at most `isize::MAX` bytes long, as every `str` is.
    pub fn new(path: &str, content: &str) -> (r: Self)
        requires
            byte_len(content@) <= isize::MAX,
        ensures
            r.text() == content@,
            r.file_path() == path@,
    {
        let chars = chars_of(content);
        let total = content.as_bytes().len();
        proof {
            lemma_byte_len_encode(content@);
        }
        let mut offsets: Vec<usize> = Vec::new();
        offsets.push(0);
        let mut k: usize = 0;
        let mut off: usize = 0;
        while k < chars.len()
            invariant
                chars@ == content@,
                total == byte_len(content@),
                k <= chars@.len(),
                off == byte_offset(chars@, k as int),
                offsets@.len() == k + 1,
                forall|j: int| 0 <= j <= k ==> #[trigger] offsets@[j] == byte_offset(chars@, j),
            decreases chars@.len() - k,
        {
            proof {
                lemma_byte_offset_monotone(chars@, k + 1, chars@.len() as int);
                lemma_byte_offset_step(chars@, k as int);
            }
            off = off + len_utf8(chars[k]);
            k = k + 1;
            offsets.push(off);
        }
        SourceFile {
            inner: Arc::new(
                SourceFileInner { path: path.to_owned(), content: content.to_owned(), chars, offsets },
            ),
        }
    }

    pub fn path(&self) -> (r: &String)
        ensures
            r@ == self.file_path(),
    {
        &self.inner.path
    }

    pub fn content(&self) -> (r: &String)
        ensures
            r@ == self.text(),
    {
        &self.inner.content
    }

    /// The number of characters of the text.
    pub fn char_count(&self) -> (r: usize)
        ensures
            r == self.text().len(),
    {
        proof {
            use_type_invariant(&*self.inner);
        }
        self.inner.chars.len()
    }

    /// The character at index `k`.
    pub fn char_at(&self, k: usize) -> (r: char)
        requires
            k < self.text().len(),
        ensures
            r == self.text()[k as int],
    {
        proof {
            use_type_invariant(&*self.inner);
        }
        self.inner.chars[k]
    }

    /// The byte offset of the character boundary before index `k`.
    pub fn offset_of(&self, k: usize) -> (r: usize)
        requires
            k <= self.text().len(),
        ensures
            r == byte_offset(self.text(), k as int),
    {
        proof {
            use_type_invariant(&*self.inner);
        }
        self.inner.offsets[k]
    }

    /// The character index whose boundary lies at byte offset `off`, if any.
    pub fn index_of_offset(&self, off: usize) -> (r: Option<usize>)
        ensures
            r matches Some(k) ==> k <= self.text().len() && byte_offset(self.text(), k as int) == off,
            r is None ==> !is_char_offset(self.text(), off as int),
    {
        proof {
            use_type_invariant(&*self.inner);
        }
        let ghost s = self.inner.chars@;
        let mut lo: usize = 0;
        let mut hi: usize = self.inner.chars.len();
        // the boundary, if any, lies in lo..=hi
        while lo < hi
            invariant
                s == self.inner.chars@,
                self.inner.offsets@.len() == s.len() + 1,
                forall|k: int| 0 <= k < self.inner.offsets@.len() ==> #[trigger] self.inner.offsets@[k] == byte_offset(s, k),
                lo <= hi <= s.len(),
                forall|k: int| 0 <= k <= s.len() && byte_offset(s, k) == off ==> lo <= k <= hi,
            decreases hi - lo,
        {
            let mid = lo + (hi - lo) / 2;
            if self.inner.offsets[mid] < off {
                assert forall|k: int| 0 <= k <= s.len() && byte_offset(s, k) == off implies mid + 1 <= k by {
                    if k <= mid {
                        lemma_byte_offset_monotone(s, k, mid as int);
                    }
                }
                lo = mid + 1;
            } else {
                assert forall|k: int| 0 <= k <= s.len() && byte_offset(s, k) == off implies k <= mid by {
                    if k > mid {
                        lemma_byte_offset_monotone(s, mid as int, k);
                    }
                }
                hi = mid;
            }
        }
        if self.inner.offsets[lo] == off {
            Some(lo)
        } else {
            None
        }
    }

    /// A new string holding the characters `from..to` of the text.
    pub fn substring(&self, from: usize, to: usize) -> (r: String)
        requires
            from <= to <= self.text().len(),
        ensures
            r@ == self.text().subrange(from as int, to as int),
    {
        proof {
            use_type_invariant(&*self.inner);
        }
        string_from_chars(&self.inner.chars, from, to)
    }

    /// The byte length of the text.
    pub fn byte_len(&self) -> (r: usize)
        ensures
            r == byte_len(self.text()),
            r < usize::MAX,
            r <= isize::MAX,
            r + 5 <= usize::MAX,
    {
        proof {
            use_type_invariant(&*self.inner);
        }
        self.inner.offsets[self.inner.chars.len()]
    }
}

impl Clone for SourceFile {
    fn clone(&self) -> (r: Self)
        ensures
            r == *self,
    {
        SourceFile { inner: share(&self.inner) }
    }
}

/// A span inside a particular source file.
pub struct SourceLocation<'source> {
    pub span: SourceSpan,
    pub source_file: &'source SourceFile,
}

impl<'source> SourceLocation<'source> {
    pub fn new(source_file: &'source SourceFile, source_span: SourceSpan) -> (r: Self)
        ensures
            r.span == source_span,
            r.source_file == source_file,
    {
        SourceLocation { source_file, span: source_span }
    }

    pub fn start(&self) -> (r: usize)
        ensures
            r == self.span.range.start,
    {
        self.span.start()
    }

    pub fn end(&self) -> (r: usize)
        ensures
            r == self.span.range.end,
    {
        self.span.end()
    }

    pub fn source_file(&self) -> (r: &'source SourceFile)
        ensures
            r == self.source_file,
    {
        self.source_file
    }

    /// `path>start+len`, the debugging form of a location.
    pub fn debug_string(&self) -> (r: String)
        ensures
            r@ == self.source_file.file_path() + seq!['>'] + nat_decimal(self.span.range.start as nat)
                + seq!['+'] + nat_decimal(self.span.spec_len()),
    {
        let mut r = self.source_file.path().clone();
        push_char(&mut r, '>');
        push_decimal(&mut r, self.span.start() as u64);
        push_char(&mut r, '+');
        push_decimal(&mut r, self.span.len() as u64);
        r
    }
}

} // verus!
