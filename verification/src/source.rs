//! Source files and the map that owns them.
//!
//! Offsets everywhere are byte offsets into the BOM-stripped text; lines and
//! columns are 1-based, and columns count characters, not bytes.

use vstd::prelude::*;
use vstd::string::*;
use vstd::utf8::*;
use crate::span::FileId;

verus! {

/// Whether a byte continues a multi-byte UTF-8 character.
pub open spec fn is_continuation(b: u8) -> bool {
    0x80 <= b < 0xC0
}

/// The 1-based `(line, column)` of byte offset `off` in `b`.
///
/// A `\n` starts a new line; every byte that starts a character advances the
/// column by one, so columns count characters.
pub open spec fn line_col_spec(b: Seq<u8>, off: int) -> (int, int)
    decreases off,
{
    if off <= 0 {
        (1, 1)
    } else {
        let (line, col) = line_col_spec(b, off - 1);
        if b[off - 1] == 10u8 {
            (line + 1, 1)
        } else if is_continuation(b[off - 1]) {
            (line, col)
        } else {
            (line, col + 1)
        }
    }
}

pub proof fn lemma_line_col_bounds(b: Seq<u8>, off: int)
    requires
        0 <= off,
    ensures
        1 <= line_col_spec(b, off).0 <= off + 1,
        1 <= line_col_spec(b, off).1 <= off + 1,
    decreases off,
{
    if off > 0 {
        lemma_line_col_bounds(b, off - 1);
    }
}

/// The byte sequence of `text` with a leading BOM removed.
pub open spec fn strip_bom_spec(text: Seq<char>) -> Seq<char> {
    if text.len() > 0 && text[0] == '\u{feff}' {
        text.drop_first()
    } else {
        text
    }
}

/// Removes one leading UTF-8 byte-order mark.
pub fn strip_bom(text: &str) -> (rest: &str)
    ensures
        rest@ == strip_bom_spec(text@),
{
    let n = text.unicode_len();
    if n > 0 && text.get_char(0) == '\u{feff}' {
        let rest = text.substring_char(1, n);
        assert(rest@ =~= text@.drop_first());
        rest
    } else {
        text
    }
}

/// One loaded source file.
#[derive(Clone, PartialEq, Eq, Debug)]
pub struct SourceFile {
    pub id: FileId,
    pub name: String,
    /// The file's text; offsets index its UTF-8 bytes.
    pub text: String,
}

impl SourceFile {
    /// The UTF-8 bytes that offsets index.
    pub open spec fn scanned(self) -> Seq<u8> {
        encode_utf8(self.text@)
    }

    /// Creates a file holding `text` as given.
    pub fn new(id: FileId, name: &str, text: &str) -> (file: SourceFile)
        ensures
            file.id == id,
            file.name@ == name@,
            file.text@ == text@,
    {
        SourceFile { id, name: name.to_owned(), text: text.to_owned() }
    }

    /// The file's text as loaded.
    pub fn text(&self) -> (t: &str)
        ensures
            t@ == self.text@,
    {
        self.text.as_str()
    }

    /// The 1-based line and character column of byte offset `offset`.
    ///
    /// An offset past the end is clamped to the end of the file.
    pub fn line_col(&self, offset: u32) -> (lc: (usize, usize))
        ensures
            ({
                let off = if (offset as int) < self.scanned().len() {
                    offset as int
                } else {
                    self.scanned().len() as int
                };
                lc == (line_col_spec(self.scanned(), off).0 as usize,
                    line_col_spec(self.scanned(), off).1 as usize)
            }),
    {
        let bytes = self.text.as_str().as_bytes();
        let end: usize = if (offset as usize) < bytes.len() { offset as usize } else { bytes.len() };
        let mut line: u64 = 1;
        let mut col: u64 = 1;
        let mut i: usize = 0;
        while i < end
            invariant
                end <= bytes@.len(),
                end <= u32::MAX,
                bytes@ == self.scanned(),
                i <= end,
                (line as int, col as int) == line_col_spec(bytes@, i as int),
            decreases end - i,
        {
            proof {
                lemma_line_col_bounds(bytes@, i as int);
            }
            let b = bytes[i];
            if b == 10u8 {
                line = line + 1;
                col = 1;
            } else if 0x80u8 <= b && b < 0xC0u8 {
            } else {
                col = col + 1;
            }
            i = i + 1;
        }
        (line as usize, col as usize)
    }
}

/// All files of one compilation, addressed by [`FileId`].
#[derive(Clone, Debug)]
pub struct SourceMap {
    pub files: Vec<SourceFile>,
}

impl SourceMap {
    /// An empty map.
    pub fn new() -> (map: SourceMap)
        ensures
            map.files@.len() == 0,
    {
        SourceMap { files: Vec::new() }
    }

    /// Adds a file, returning its id. One leading BOM is stripped from the
    /// text; a second one stays, as content.
    pub fn add(&mut self, name: &str, text: &str) -> (id: FileId)
        requires
            old(self).files@.len() < u32::MAX,
        ensures
            id.0 == old(self).files@.len(),
            final(self).files@.len() == old(self).files@.len() + 1,
            final(self).files@.take(old(self).files@.len() as int) == old(self).files@,
            final(self).files@.last().id == id,
            final(self).files@.last().name@ == name@,
            final(self).files@.last().text@ == strip_bom_spec(text@),
    {
        let id = FileId(self.files.len() as u32);
        let file = SourceFile::new(id, name, strip_bom(text));
        self.files.push(file);
        assert(self.files@.take(old(self).files@.len() as int) =~= old(self).files@);
        id
    }

    /// The file with the given id, if it exists.
    pub fn file(&self, id: FileId) -> (f: Option<&SourceFile>)
        ensures
            (id.0 as int) < self.files@.len() ==> f == Some(&self.files@[id.0 as int]),
            (id.0 as int) >= self.files@.len() ==> f.is_none(),
    {
        let i = id.0 as usize;
        if i < self.files.len() {
            Some(&self.files[i])
        } else {
            None
        }
    }
}

} // verus!
